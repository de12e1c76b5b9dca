//! The index: for each request key, the entries that answer it, each with
//! the request headers that its response was selected on.

use crate::entry_id::EntryId;
use crate::headers::{
    carries, first_value, headers_subsume, lemma_select_subsumed, model, named_by, select,
    select_named, subsumes, Header, HeaderView,
};
use crate::request::{get_method, host_name, Request, RequestView};
use crate::text::{bytes_equal, is_text, is_visible_text, lists_name};
use vstd::prelude::*;

verus! {

/// The key of the index: one virtual resource.
#[derive(Clone, Debug, PartialEq, Eq)]
pub struct IndexKey {
    pub method: Vec<u8>,
    pub path_and_query: Vec<u8>,
    pub host: Vec<u8>,
}

/// What an index key is to the contracts.
pub struct KeyView {
    pub method: Seq<u8>,
    pub path_and_query: Seq<u8>,
    pub host: Seq<u8>,
}

impl View for IndexKey {
    type V = KeyView;

    open spec fn view(&self) -> KeyView {
        KeyView { method: self.method@, path_and_query: self.path_and_query@, host: self.host@ }
    }
}

/// One indexed entry: its ID and the selector it was stored under.
#[derive(Clone, Debug, PartialEq, Eq)]
pub struct IndexEntry {
    pub id: EntryId,
    pub selector: Vec<Header>,
}

/// What an indexed entry is to the contracts.
pub struct EntryView {
    pub id: u128,
    pub selector: Seq<HeaderView>,
}

impl View for IndexEntry {
    type V = EntryView;

    open spec fn view(&self) -> EntryView {
        EntryView { id: self.id, selector: model(self.selector@) }
    }
}

/// The entries of a list, in order.
pub open spec fn entries_model(entries: Seq<IndexEntry>) -> Seq<EntryView> {
    entries.map_values(|e: IndexEntry| e@)
}

/// The index as a mathematical map: each key that is present, with its list
/// of entries in insertion order.
pub type IndexMap = Map<KeyView, Seq<EntryView>>;

/// The key under which a request is looked up. A request without a `Host`
/// header has none.
pub open spec fn key_of(request: RequestView) -> Option<KeyView> {
    match first_value(request.headers, host_name()) {
        Some(host) => Some(
            KeyView { method: request.method, path_and_query: request.path_and_query, host },
        ),
        None => None,
    }
}

/// The ID of the first entry in `list` whose selector the request headers
/// subsume.
pub open spec fn first_match(list: Seq<EntryView>, headers: Seq<HeaderView>) -> Option<u128>
    decreases list.len(),
{
    if list.len() == 0 {
        None
    } else if subsumes(headers, list[0].selector) {
        Some(list[0].id)
    } else {
        first_match(list.skip(1), headers)
    }
}

/// The entry that answers a request, if the index knows one.
pub open spec fn lookup(index: IndexMap, request: RequestView) -> Option<u128> {
    match key_of(request) {
        Some(key) => if index.contains_key(key) {
            first_match(index[key], request.headers)
        } else {
            None
        },
        None => None,
    }
}

/// The index after `entry` was appended to the list of `key`.
pub open spec fn with_entry(index: IndexMap, key: KeyView, entry: EntryView) -> IndexMap {
    index.insert(
        key,
        if index.contains_key(key) {
            index[key].push(entry)
        } else {
            seq![entry]
        },
    )
}

/// The test that keeps the entries with another ID than `id`.
pub open spec fn other_than(id: u128) -> spec_fn(EntryView) -> bool {
    |e: EntryView| e.id != id
}

/// The index after every entry with the ID `id` was taken out, and with it
/// every key whose list that emptied.
pub open spec fn without_id(index: IndexMap, id: u128) -> IndexMap {
    Map::new(
        |k: KeyView| index.contains_key(k) && index[k].filter(other_than(id)).len() > 0,
        |k: KeyView| index[k].filter(other_than(id)),
    )
}

/// Some list of the index holds an entry with the ID `id`.
pub open spec fn holds_id(index: IndexMap, id: u128) -> bool {
    exists|k: KeyView, i: int|
        index.contains_key(k) && 0 <= i < index[k].len() && (#[trigger] index[k][i]).id == id
}

/// `key` is addressed by `path`: its method is `GET` and its path is `path`,
/// whatever its host.
pub open spec fn addressed(key: KeyView, path: Seq<u8>) -> bool {
    key.method == get_method() && key.path_and_query == path
}

/// The index after every key addressed by `path` was removed.
pub open spec fn without_path(index: IndexMap, path: Seq<u8>) -> IndexMap {
    Map::new(|k: KeyView| index.contains_key(k) && !addressed(k, path), |k: KeyView| index[k])
}

/// The IDs of the entries under the keys addressed by `path`.
pub open spec fn ids_under(index: IndexMap, path: Seq<u8>) -> Set<u128> {
    Set::new(
        |id: u128|
            exists|k: KeyView, i: int|
                index.contains_key(k) && addressed(k, path) && 0 <= i < index[k].len() && (
                #[trigger] index[k][i]).id == id,
    )
}

/// Every list of the index has at least one entry.
pub open spec fn no_empty_list(index: IndexMap) -> bool {
    forall|k: KeyView| index.contains_key(k) ==> (#[trigger] index[k]).len() > 0
}

/// One key with its list.
struct Bucket {
    key: IndexKey,
    entries: Vec<IndexEntry>,
}

/// No bucket is empty and no key occurs twice.
spec fn wf_buckets(bs: Seq<Bucket>) -> bool {
    &&& forall|i: int| 0 <= i < bs.len() ==> (#[trigger] bs[i]).entries.len() > 0
    &&& forall|i: int, j: int|
        0 <= i < j < bs.len() ==> (#[trigger] bs[i]).key@ != (#[trigger] bs[j]).key@
}

/// The map that a sequence of buckets stands for.
spec fn model_of(bs: Seq<Bucket>) -> IndexMap
    decreases bs.len(),
{
    if bs.len() == 0 {
        Map::empty()
    } else {
        model_of(bs.drop_last()).insert(bs.last().key@, entries_model(bs.last().entries@))
    }
}

proof fn lemma_model_dom(bs: Seq<Bucket>, k: KeyView)
    ensures
        model_of(bs).contains_key(k) <==> exists|i: int|
            0 <= i < bs.len() && (#[trigger] bs[i]).key@ == k,
    decreases bs.len(),
{
    if bs.len() > 0 {
        lemma_model_dom(bs.drop_last(), k);
        if model_of(bs).contains_key(k) {
            if bs.last().key@ == k {
                assert(bs[bs.len() - 1].key@ == k);
            } else {
                let i = choose|i: int|
                    0 <= i < bs.drop_last().len() && (#[trigger] bs.drop_last()[i]).key@ == k;
                assert(bs[i].key@ == k);
            }
        }
        if exists|i: int| 0 <= i < bs.len() && (#[trigger] bs[i]).key@ == k {
            let i = choose|i: int| 0 <= i < bs.len() && (#[trigger] bs[i]).key@ == k;
            if i < bs.len() - 1 {
                assert(bs.drop_last()[i].key@ == k);
            }
        }
    }
}

proof fn lemma_model_at(bs: Seq<Bucket>, i: int)
    requires
        wf_buckets(bs),
        0 <= i < bs.len(),
    ensures
        model_of(bs).contains_key(bs[i].key@),
        model_of(bs)[bs[i].key@] == entries_model(bs[i].entries@),
    decreases bs.len(),
{
    if i < bs.len() - 1 {
        assert(wf_buckets(bs.drop_last())) by {
            assert forall|a: int| 0 <= a < bs.drop_last().len() implies (
            #[trigger] bs.drop_last()[a]).entries.len() > 0 by {
                assert(bs.drop_last()[a] == bs[a]);
            }
            assert forall|a: int, b: int| 0 <= a < b < bs.drop_last().len() implies (
            #[trigger] bs.drop_last()[a]).key@ != (#[trigger] bs.drop_last()[b]).key@ by {
                assert(bs.drop_last()[a] == bs[a]);
                assert(bs.drop_last()[b] == bs[b]);
            }
        }
        lemma_model_at(bs.drop_last(), i);
        assert(bs.drop_last()[i] == bs[i]);
        assert(bs[i].key@ != bs[bs.len() - 1].key@);
    }
}

/// Going one bucket further adds that bucket's key, which is new.
proof fn lemma_model_next(bs: Seq<Bucket>, i: int)
    requires
        wf_buckets(bs),
        0 <= i < bs.len(),
    ensures
        !model_of(bs.take(i)).contains_key(bs[i].key@),
        model_of(bs.take(i + 1)) == model_of(bs.take(i)).insert(
            bs[i].key@,
            entries_model(bs[i].entries@),
        ),
{
    let prefix = bs.take(i);
    assert(bs.take(i + 1).drop_last() =~= prefix);
    assert(bs.take(i + 1).last() == bs[i]);
    lemma_model_dom(prefix, bs[i].key@);
    if model_of(prefix).contains_key(bs[i].key@) {
        let b = choose|b: int| 0 <= b < prefix.len() && (#[trigger] prefix[b]).key@ == bs[i].key@;
        assert(prefix[b] == bs[b]);
        assert(bs[b].key@ != bs[i].key@);
    }
}

/// A bucket with a new key and at least one entry can be appended.
proof fn lemma_push_keeps_wf(bs: Seq<Bucket>, b: Bucket)
    requires
        wf_buckets(bs),
        b.entries.len() > 0,
        !model_of(bs).contains_key(b.key@),
    ensures
        wf_buckets(bs.push(b)),
        model_of(bs.push(b)) == model_of(bs).insert(b.key@, entries_model(b.entries@)),
{
    let all = bs.push(b);
    assert(all.drop_last() =~= bs);
    assert(all.last() == b);
    assert forall|i: int, j: int| 0 <= i < j < all.len() implies (#[trigger] all[i]).key@ != (
    #[trigger] all[j]).key@ by {
        assert(all[i] == bs[i]);
        if j == all.len() - 1 {
            lemma_model_dom(bs, bs[i].key@);
        } else {
            assert(all[j] == bs[j]);
        }
    }
    assert forall|i: int| 0 <= i < all.len() implies (#[trigger] all[i]).entries.len() > 0 by {
        if i < all.len() - 1 {
            assert(all[i] == bs[i]);
        }
    }
}

proof fn lemma_model_update(bs: Seq<Bucket>, i: int, b: Bucket)
    requires
        0 <= i < bs.len(),
        b.key@ == bs[i].key@,
        forall|j: int| i < j < bs.len() ==> (#[trigger] bs[j]).key@ != b.key@,
    ensures
        model_of(bs.update(i, b)) == model_of(bs).insert(b.key@, entries_model(b.entries@)),
    decreases bs.len(),
{
    let after = bs.update(i, b);
    if i == bs.len() - 1 {
        assert(after.drop_last() =~= bs.drop_last());
        assert(model_of(after) =~= model_of(bs).insert(b.key@, entries_model(b.entries@)));
    } else {
        assert(after.drop_last() =~= bs.drop_last().update(i, b));
        assert(after.last() == bs.last());
        assert(bs.drop_last()[i] == bs[i]);
        assert forall|j: int| i < j < bs.drop_last().len() implies (
        #[trigger] bs.drop_last()[j]).key@ != b.key@ by {
            assert(bs.drop_last()[j] == bs[j]);
        }
        lemma_model_update(bs.drop_last(), i, b);
        assert(bs[bs.len() - 1].key@ != b.key@);
        assert(model_of(after) =~= model_of(bs).insert(b.key@, entries_model(b.entries@)));
    }
}

/// The index: a secondary structure from request keys to entry IDs.
pub struct IndexCache {
    buckets: Vec<Bucket>,
}

impl View for IndexCache {
    type V = IndexMap;

    closed spec fn view(&self) -> IndexMap {
        model_of(self.buckets@)
    }
}

impl IndexCache {
    /// The invariant of the index: no key occurs twice and no list is empty.
    pub closed spec fn wf(&self) -> bool {
        wf_buckets(self.buckets@)
    }

    /// An empty index.
    pub fn new() -> (index: IndexCache)
        ensures
            index.wf(),
            index@ == Map::<KeyView, Seq<EntryView>>::empty(),
    {
        IndexCache { buckets: Vec::new() }
    }

    /// Finds the bucket of a key.
    fn position(&self, method: &[u8], path_and_query: &[u8], host: &[u8]) -> (r: Option<usize>)
        ensures
            match r {
                Some(i) => i < self.buckets.len() && self.buckets[i as int].key@ == (KeyView {
                    method: method@,
                    path_and_query: path_and_query@,
                    host: host@,
                }),
                None => forall|i: int|
                    0 <= i < self.buckets.len() ==> (#[trigger] self.buckets[i]).key@ != (KeyView {
                        method: method@,
                        path_and_query: path_and_query@,
                        host: host@,
                    }),
            },
    {
        let mut i: usize = 0;
        while i < self.buckets.len()
            invariant
                i <= self.buckets.len(),
                forall|j: int|
                    0 <= j < i ==> (#[trigger] self.buckets[j]).key@ != (KeyView {
                        method: method@,
                        path_and_query: path_and_query@,
                        host: host@,
                    }),
            decreases self.buckets.len() - i,
        {
            let key = &self.buckets[i].key;
            if bytes_equal(key.method.as_slice(), method) && bytes_equal(
                key.path_and_query.as_slice(),
                path_and_query,
            ) && bytes_equal(key.host.as_slice(), host) {
                return Some(i);
            }
            i += 1;
        }
        None
    }

    /// Records that the entry `uuid` answers requests with this method,
    /// target and host whose headers subsume `req_headers_match_vary`. The
    /// entry goes to the end of the key's list; the list is created if the
    /// key is new. Nothing is deduplicated.
    pub fn add_entry(
        &mut self,
        uuid: EntryId,
        req_method: Vec<u8>,
        req_uri: Vec<u8>,
        req_host: Vec<u8>,
        req_headers_match_vary: Vec<Header>,
    )
        requires
            old(self).wf(),
        ensures
            final(self).wf(),
            final(self)@ == with_entry(
                old(self)@,
                KeyView { method: req_method@, path_and_query: req_uri@, host: req_host@ },
                EntryView { id: uuid, selector: model(req_headers_match_vary@) },
            ),
    {
        let ghost before = self.buckets@;
        let ghost key = KeyView { method: req_method@, path_and_query: req_uri@, host: req_host@ };
        let ghost added = EntryView { id: uuid, selector: model(req_headers_match_vary@) };
        let entry = IndexEntry { id: uuid, selector: req_headers_match_vary };
        match self.position(req_method.as_slice(), req_uri.as_slice(), req_host.as_slice()) {
            Some(i) => {
                self.buckets[i].entries.push(entry);
                proof {
                    let b = self.buckets@[i as int];
                    assert(self.buckets@ =~= before.update(i as int, b));
                    lemma_model_at(before, i as int);
                    lemma_model_update(before, i as int, b);
                    assert(entries_model(b.entries@) =~= entries_model(
                        before[i as int].entries@,
                    ).push(added));
                    assert forall|a: int, c: int| 0 <= a < c < self.buckets@.len() implies (
                    #[trigger] self.buckets@[a]).key@ != (#[trigger] self.buckets@[c]).key@ by {
                        assert(self.buckets@[a].key@ == before[a].key@);
                        assert(self.buckets@[c].key@ == before[c].key@);
                    }
                }
            },
            None => {
                let bucket = Bucket {
                    key: IndexKey { method: req_method, path_and_query: req_uri, host: req_host },
                    entries: vec![entry],
                };
                self.buckets.push(bucket);
                proof {
                    lemma_model_dom(before, key);
                    lemma_push_keeps_wf(before, bucket);
                    assert(entries_model(bucket.entries@) =~= seq![added]);
                }
            },
        }
    }

    /// Finds the entry that answers a request: the first one under the
    /// request's key whose selector the request headers subsume.
    pub fn request_to_uuid(&self, request: &Request) -> (r: Option<EntryId>)
        requires
            self.wf(),
        ensures
            r == lookup(self@, request@),
    {
        let host = match request.host() {
            Some(host) => host,
            None => {
                return None;
            },
        };
        let at = self.position(
            request.method.as_slice(),
            request.path_and_query.as_slice(),
            host.as_slice(),
        );
        let ghost key = key_of(request@).unwrap();
        match at {
            None => {
                proof {
                    lemma_model_dom(self.buckets@, key);
                }
                None
            },
            Some(b) => {
                proof {
                    lemma_model_at(self.buckets@, b as int);
                }
                let entries = &self.buckets[b].entries;
                let ghost list = entries_model(entries@);
                let mut i: usize = 0;
                assert(list.skip(0) =~= list);
                while i < entries.len()
                    invariant
                        i <= entries.len(),
                        list == entries_model(entries@),
                        key_of(request@) == Some(key),
                        self@.contains_key(key),
                        self@[key] == list,
                        first_match(list, request@.headers) == first_match(
                            list.skip(i as int),
                            request@.headers,
                        ),
                    decreases entries.len() - i,
                {
                    assert(list.skip(i as int)[0] == entries@[i as int]@);
                    if headers_subsume(&request.headers, &entries[i].selector) {
                        return Some(entries[i].id);
                    }
                    assert(list.skip(i as int).skip(1) =~= list.skip(i + 1));
                    i += 1;
                }
                None
            },
        }
    }

    /// Forgets everything.
    pub fn clear(&mut self)
        ensures
            final(self).wf(),
            final(self)@ == Map::<KeyView, Seq<EntryView>>::empty(),
    {
        self.buckets = Vec::new();
    }

    /// Takes every entry with the ID `uuid` out of every list, and removes
    /// each key whose list that empties.
    pub fn delete_uuid_from_index(&mut self, uuid: &EntryId)
        requires
            old(self).wf(),
        ensures
            final(self).wf(),
            final(self)@ == without_id(old(self)@, *uuid),
    {
        let ghost before = self.buckets@;
        let mut taken: Vec<Bucket> = Vec::new();
        core::mem::swap(&mut self.buckets, &mut taken);
        let mut kept: Vec<Bucket> = Vec::new();
        assert(before.take(0) =~= Seq::<Bucket>::empty());
        assert(model_of(kept@) =~= without_id(model_of(before.take(0)), *uuid));
        for bucket in it: taken.into_iter()
            invariant
                it.seq() == before,
                wf_buckets(before),
                wf_buckets(kept@),
                model_of(kept@) == without_id(model_of(before.take(it.index() as int)), *uuid),
        {
            let ghost i = it.index() as int;
            let ghost list = entries_model(bucket.entries@);
            let ghost k = bucket.key@;
            let ghost kept_before = kept@;
            let Bucket { key, entries } = bucket;
            let rest = retain_other(entries, *uuid);
            proof {
                lemma_model_next(before, i);
                lemma_without_id_step(model_of(before.take(i)), k, list, *uuid);
            }
            if rest.len() > 0 {
                let survivor = Bucket { key, entries: rest };
                proof {
                    lemma_push_keeps_wf(kept_before, survivor);
                }
                kept.push(survivor);
            }
        }
        assert(before.take(before.len() as int) =~= before);
        self.buckets = kept;
    }

    /// Removes every key with the method `GET` and the path `path`, under
    /// whatever host, and returns the IDs of the entries that went with
    /// them, so that the caller can purge them from the cache too.
    pub fn delete_by_path(&mut self, path: &[u8]) -> (ids: Vec<EntryId>)
        requires
            old(self).wf(),
        ensures
            final(self).wf(),
            final(self)@ == without_path(old(self)@, path@),
            forall|id: u128|
                #[trigger] ids@.contains(id) <==> ids_under(old(self)@, path@).contains(id),
    {
        let ghost before = self.buckets@;
        let mut taken: Vec<Bucket> = Vec::new();
        core::mem::swap(&mut self.buckets, &mut taken);
        let mut kept: Vec<Bucket> = Vec::new();
        let mut ids: Vec<EntryId> = Vec::new();
        assert(before.take(0) =~= Seq::<Bucket>::empty());
        assert(model_of(kept@) =~= without_path(model_of(before.take(0)), path@));
        for bucket in it: taken.into_iter()
            invariant
                it.seq() == before,
                wf_buckets(before),
                wf_buckets(kept@),
                model_of(kept@) == without_path(model_of(before.take(it.index() as int)), path@),
                forall|id: u128|
                    #[trigger] ids@.contains(id) <==> ids_under(
                        model_of(before.take(it.index() as int)),
                        path@,
                    ).contains(id),
        {
            let ghost i = it.index() as int;
            let ghost prefix = before.take(i);
            let ghost list = entries_model(bucket.entries@);
            let ghost k = bucket.key@;
            let ghost kept_before = kept@;
            let ghost ids_before = ids@;
            proof {
                lemma_model_next(before, i);
                lemma_without_path_step(model_of(prefix), k, list, path@);
                lemma_ids_under_step(model_of(prefix), k, list, path@);
            }
            if bytes_equal(bucket.key.method.as_slice(), "GET".as_bytes()) && bytes_equal(
                bucket.key.path_and_query.as_slice(),
                path,
            ) {
                let mut j: usize = 0;
                while j < bucket.entries.len()
                    invariant
                        j <= bucket.entries.len(),
                        list == entries_model(bucket.entries@),
                        forall|id: u128|
                            #[trigger] ids@.contains(id) <==> (ids_before.contains(id) || id_among(
                                list,
                                j as int,
                                id,
                            )),
                    decreases bucket.entries.len() - j,
                {
                    let ghost prior = ids@;
                    ids.push(bucket.entries[j].id);
                    proof {
                        assert(list[j as int].id == bucket.entries@[j as int].id);
                        assert forall|id: u128|
                            #[trigger] ids@.contains(id) <==> (ids_before.contains(id) || id_among(
                                list,
                                j + 1,
                                id,
                            )) by {
                            lemma_id_among_next(list, j as int, id);
                            lemma_contains_push(prior, list[j as int].id, id);
                        }
                    }
                    j += 1;
                }
            } else {
                proof {
                    lemma_push_keeps_wf(kept_before, bucket);
                }
                kept.push(bucket);
            }
        }
        assert(before.take(before.len() as int) =~= before);
        self.buckets = kept;
        ids
    }
}

/// Keeps the entries with another ID than `id`, in order.
fn retain_other(entries: Vec<IndexEntry>, id: EntryId) -> (r: Vec<IndexEntry>)
    ensures
        entries_model(r@) == entries_model(entries@).filter(other_than(id)),
{
    let ghost all = entries_model(entries@);
    let mut out: Vec<IndexEntry> = Vec::new();
    assert(all.take(0) =~= Seq::<EntryView>::empty());
    assert(entries_model(out@) =~= Seq::<EntryView>::empty());
    proof {
        reveal(Seq::filter);
    }
    for e in it: entries.into_iter()
        invariant
            it.seq() == entries@,
            all == entries_model(entries@),
            entries_model(out@) == all.take(it.index() as int).filter(other_than(id)),
    {
        let ghost before = entries_model(out@);
        let ghost i = it.index() as int;
        proof {
            let head = all.take(i);
            assert(all.take(i + 1) =~= head.push(e@));
            head.lemma_filter_push(e@, other_than(id));
        }
        if e.id != id {
            out.push(e);
            assert(entries_model(out@) =~= before.push(e@));
        }
    }
    assert(all.take(all.len() as int) =~= all);
    out
}

proof fn lemma_without_id_step(m: IndexMap, k: KeyView, list: Seq<EntryView>, id: u128)
    requires
        !m.contains_key(k),
    ensures
        without_id(m.insert(k, list), id) == if list.filter(other_than(id)).len() > 0 {
            without_id(m, id).insert(k, list.filter(other_than(id)))
        } else {
            without_id(m, id)
        },
{
    if list.filter(other_than(id)).len() > 0 {
        assert(without_id(m.insert(k, list), id) =~= without_id(m, id).insert(
            k,
            list.filter(other_than(id)),
        ));
    } else {
        assert(without_id(m.insert(k, list), id) =~= without_id(m, id));
    }
}

proof fn lemma_without_path_step(m: IndexMap, k: KeyView, list: Seq<EntryView>, path: Seq<u8>)
    requires
        !m.contains_key(k),
    ensures
        without_path(m.insert(k, list), path) == if addressed(k, path) {
            without_path(m, path)
        } else {
            without_path(m, path).insert(k, list)
        },
{
    if addressed(k, path) {
        assert(without_path(m.insert(k, list), path) =~= without_path(m, path));
    } else {
        assert(without_path(m.insert(k, list), path) =~= without_path(m, path).insert(k, list));
    }
}

/// Some entry among the first `n` of `list` has the ID `id`.
spec fn id_among(list: Seq<EntryView>, n: int, id: u128) -> bool {
    exists|m: int| 0 <= m < n && m < list.len() && (#[trigger] list[m]).id == id
}

proof fn lemma_id_among_next(list: Seq<EntryView>, n: int, id: u128)
    requires
        0 <= n < list.len(),
    ensures
        id_among(list, n + 1, id) <==> (id_among(list, n, id) || list[n].id == id),
{
    if id_among(list, n + 1, id) {
        let m = choose|m: int| 0 <= m < n + 1 && m < list.len() && (#[trigger] list[m]).id == id;
        if m < n {
            assert(id_among(list, n, id));
        }
    }
    if id_among(list, n, id) {
        let m = choose|m: int| 0 <= m < n && m < list.len() && (#[trigger] list[m]).id == id;
        assert(0 <= m < n + 1 && list[m].id == id);
    }
    if list[n].id == id {
        assert(0 <= n < n + 1 && list[n].id == id);
    }
}

proof fn lemma_contains_push(s: Seq<u128>, x: u128, id: u128)
    ensures
        s.push(x).contains(id) <==> (s.contains(id) || x == id),
{
    if s.push(x).contains(id) {
        let at = choose|at: int| 0 <= at < s.push(x).len() && s.push(x)[at] == id;
        if at < s.len() {
            assert(s[at] == id);
        }
    }
    if s.contains(id) {
        let at = choose|at: int| 0 <= at < s.len() && s[at] == id;
        assert(s.push(x)[at] == id);
    }
    if x == id {
        assert(s.push(x)[s.len() as int] == id);
    }
}

proof fn lemma_ids_under_step(m: IndexMap, k: KeyView, list: Seq<EntryView>, path: Seq<u8>)
    requires
        !m.contains_key(k),
    ensures
        forall|id: u128|
            #[trigger] ids_under(m.insert(k, list), path).contains(id) <==> (ids_under(
                m,
                path,
            ).contains(id) || (addressed(k, path) && id_among(list, list.len() as int, id))),
{
    let after = m.insert(k, list);
    assert forall|id: u128|
        #[trigger] ids_under(after, path).contains(id) <==> (ids_under(m, path).contains(id) || (
        addressed(k, path) && id_among(list, list.len() as int, id))) by {
        if ids_under(after, path).contains(id) {
            let (k2, i2) = choose|k2: KeyView, i2: int|
                after.contains_key(k2) && addressed(k2, path) && 0 <= i2 < after[k2].len() && (
                #[trigger] after[k2][i2]).id == id;
            if k2 == k {
                assert(list[i2].id == id);
                assert(id_among(list, list.len() as int, id));
            } else {
                assert(m.contains_key(k2) && (#[trigger] m[k2][i2]).id == id);
            }
        }
        if ids_under(m, path).contains(id) {
            let (k2, i2) = choose|k2: KeyView, i2: int|
                m.contains_key(k2) && addressed(k2, path) && 0 <= i2 < m[k2].len() && (
                #[trigger] m[k2][i2]).id == id;
            assert(after.contains_key(k2) && (#[trigger] after[k2][i2]).id == id);
        }
        if addressed(k, path) && id_among(list, list.len() as int, id) {
            let n = choose|n: int|
                0 <= n < list.len() && n < list.len() && (#[trigger] list[n]).id == id;
            assert(after.contains_key(k) && (#[trigger] after[k][n]).id == id);
        }
    }
}

/// Why a selector could not be extracted.
#[derive(Clone, Copy, Debug, PartialEq, Eq)]
pub enum VaryError {
    /// The `Vary` value holds bytes that are not visible text.
    NotText,
}

/// From a request, keeps the header fields whose names the `Vary` value of
/// the response lists. Without a `Vary` header the selector is empty; a
/// `Vary` value that is not visible text is an error.
pub fn headers_match_vary(request_headers: &Vec<Header>, vary_header: Option<&Vec<u8>>) -> (r:
    Result<Vec<Header>, VaryError>)
    ensures
        match vary_header {
            None => r is Ok && model(r->Ok_0@) == Seq::<HeaderView>::empty(),
            Some(vary) => if is_text(vary@) {
                r is Ok && model(r->Ok_0@) == select(model(request_headers@), vary@)
            } else {
                r == Err::<Vec<Header>, VaryError>(VaryError::NotText)
            },
        },
{
    match vary_header {
        None => {
            let empty: Vec<Header> = Vec::new();
            assert(model(empty@) =~= Seq::<HeaderView>::empty());
            Ok(empty)
        },
        Some(vary) => {
            if is_visible_text(vary.as_slice()) {
                Ok(select_named(request_headers, vary.as_slice()))
            } else {
                Err(VaryError::NotText)
            }
        },
    }
}

/// No list of a well-formed index is empty: a key whose last entry goes is
/// removed in the same operation.
pub proof fn lemma_lists_never_empty(index: IndexCache)
    requires
        index.wf(),
    ensures
        no_empty_list(index@),
{
    assert forall|k: KeyView| index@.contains_key(k) implies (#[trigger] index@[k]).len() > 0 by {
        lemma_model_dom(index.buckets@, k);
        let i = choose|i: int|
            0 <= i < index.buckets@.len() && (#[trigger] index.buckets@[i]).key@ == k;
        lemma_model_at(index.buckets@, i);
    }
}

/// After an ID was taken out, no list holds it.
pub proof fn lemma_without_id_forgets(index: IndexMap, id: u128)
    ensures
        !holds_id(without_id(index, id), id),
{
    let after = without_id(index, id);
    if holds_id(after, id) {
        let (k, i) = choose|k: KeyView, i: int|
            after.contains_key(k) && 0 <= i < after[k].len() && (#[trigger] after[k][i]).id == id;
        index[k].lemma_filter_pred(other_than(id), i);
    }
}

/// Taking out an ID that no list holds changes nothing.
pub proof fn lemma_without_id_absent(index: IndexMap, id: u128)
    requires
        no_empty_list(index),
        !holds_id(index, id),
    ensures
        without_id(index, id) == index,
{
    assert forall|k: KeyView| index.contains_key(k) implies (#[trigger] index[k]).filter(
        other_than(id),
    ) == index[k] by {
        assert forall|i: int| 0 <= i < index[k].len() implies other_than(id)(
            #[trigger] index[k][i],
        ) by {}
        lemma_filter_all(index[k], other_than(id));
    }
    assert(without_id(index, id) =~= index);
}

proof fn lemma_filter_all(s: Seq<EntryView>, keep: spec_fn(EntryView) -> bool)
    requires
        forall|i: int| 0 <= i < s.len() ==> keep(#[trigger] s[i]),
    ensures
        s.filter(keep) == s,
    decreases s.len(),
{
    reveal(Seq::filter);
    if s.len() > 0 {
        assert forall|i: int| 0 <= i < s.drop_last().len() implies keep(
            #[trigger] s.drop_last()[i],
        ) by {
            assert(s.drop_last()[i] == s[i]);
        }
        lemma_filter_all(s.drop_last(), keep);
        assert(s.drop_last().push(s.last()) =~= s);
    }
}

/// Selection that honours `Vary`. Let two requests for one resource differ
/// in a header that `vary` names: the first carries a field that the second
/// does not. Once the first is indexed, the second still misses, so it gets
/// an entry of its own; once both are indexed, each is answered by its own
/// entry, and so is any request for the resource that carries the second
/// one's named fields and not that field of the first.
pub proof fn lemma_vary_selects(
    index: IndexMap,
    key: KeyView,
    first: RequestView,
    second: RequestView,
    third: RequestView,
    vary: Seq<u8>,
    field: int,
    id1: u128,
    id2: u128,
)
    requires
        key_of(first) == Some(key),
        key_of(second) == Some(key),
        key_of(third) == Some(key),
        !index.contains_key(key),
        0 <= field < first.headers.len(),
        lists_name(vary, first.headers[field].name),
        !carries(second.headers, first.headers[field]),
        !carries(third.headers, first.headers[field]),
        subsumes(third.headers, select(second.headers, vary)),
    ensures
        ({
            let one = with_entry(
                index,
                key,
                EntryView { id: id1, selector: select(first.headers, vary) },
            );
            let two = with_entry(
                one,
                key,
                EntryView { id: id2, selector: select(second.headers, vary) },
            );
            &&& lookup(one, first) == Some(id1)
            &&& lookup(one, second) is None
            &&& lookup(two, first) == Some(id1)
            &&& lookup(two, second) == Some(id2)
            &&& lookup(two, third) == Some(id2)
        }),
{
    let s1 = select(first.headers, vary);
    let s2 = select(second.headers, vary);
    let e1 = EntryView { id: id1, selector: s1 };
    let e2 = EntryView { id: id2, selector: s2 };
    let one = with_entry(index, key, e1);
    let two = with_entry(one, key, e2);
    let none = Seq::<EntryView>::empty();
    lemma_select_subsumed(first.headers, vary);
    lemma_select_subsumed(second.headers, vary);
    first.headers.lemma_filter_contains(named_by(vary), field);
    let at = choose|at: int| 0 <= at < s1.len() && s1[at] == first.headers[field];
    assert(!subsumes(second.headers, s1)) by {
        assert(!carries(second.headers, s1[at]));
    }
    assert(!subsumes(third.headers, s1)) by {
        assert(!carries(third.headers, s1[at]));
    }
    let l1 = seq![e1];
    let l2 = seq![e1, e2];
    let tail = seq![e2];
    assert(one[key] =~= l1);
    assert(two[key] =~= l2);
    assert(l1.skip(1) =~= none);
    assert(l2.skip(1) =~= tail);
    assert(tail.skip(1) =~= none);
    assert(l1[0] == e1 && l2[0] == e1 && tail[0] == e2);
    assert(first_match(none, second.headers) is None);
    assert(first_match(tail, second.headers) == Some(id2));
    assert(first_match(tail, third.headers) == Some(id2));
    assert(first_match(l1, first.headers) == Some(id1));
    assert(first_match(l1, second.headers) == first_match(none, second.headers));
    assert(first_match(l2, first.headers) == Some(id1));
    assert(first_match(l2, second.headers) == first_match(tail, second.headers));
    assert(first_match(l2, third.headers) == first_match(tail, third.headers));
}

/// Appending an entry shadows none of the entries before it: a request that
/// an earlier entry answers is still answered by that one, and any other
/// request is answered by the new entry if it subsumes its selector.
pub proof fn lemma_first_match_push(
    list: Seq<EntryView>,
    entry: EntryView,
    headers: Seq<HeaderView>,
)
    ensures
        first_match(list.push(entry), headers) == match first_match(list, headers) {
            Some(id) => Some(id),
            None => if subsumes(headers, entry.selector) {
                Some(entry.id)
            } else {
                None
            },
        },
    decreases list.len(),
{
    let all = list.push(entry);
    if list.len() == 0 {
        assert(all[0] == entry);
        assert(all.skip(1) =~= Seq::<EntryView>::empty());
        assert(first_match(all.skip(1), headers) is None);
    } else {
        assert(all[0] == list[0]);
        assert(all.skip(1) =~= list.skip(1).push(entry));
        lemma_first_match_push(list.skip(1), entry, headers);
    }
}

/// Once a response is indexed under the key of its request, with a
/// selector that the request subsumes, that request is answered from the
/// index: by an entry that answered it before, or else by the new one.
pub proof fn lemma_indexed_request_answered(
    index: IndexMap,
    request: RequestView,
    key: KeyView,
    entry: EntryView,
)
    requires
        key_of(request) == Some(key),
        subsumes(request.headers, entry.selector),
    ensures
        lookup(with_entry(index, key, entry), request) == match lookup(index, request) {
            Some(id) => Some(id),
            None => Some(entry.id),
        },
{
    if index.contains_key(key) {
        lemma_first_match_push(index[key], entry, request.headers);
    } else {
        lemma_first_match_push(Seq::empty(), entry, request.headers);
        assert(Seq::<EntryView>::empty().push(entry) =~= seq![entry]);
    }
}

} // verus!
