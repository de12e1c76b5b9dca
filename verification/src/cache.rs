//! The entry cache: cached responses under their entry IDs, bounded by
//! weight and expiring when idle. The store itself is a `moka` cache; this
//! module weighs the entries, builds the store from the configuration and
//! states what the rest of the library may rely on.

use crate::config::Config;
use crate::entry_id::{entry_id_of, parse_entry_id, EntryId};
use crate::headers::{first_value, header_value, model, Header, HeaderView};
use crate::request::etag_name;
use vstd::prelude::*;

verus! {

/// A response as the cache holds it and as the proxy serves it.
#[derive(Clone, Debug, PartialEq, Eq)]
pub struct CachedResponse {
    /// The HTTP status code.
    pub status: u16,
    /// The response headers.
    pub headers: Vec<Header>,
    /// The response body.
    pub body: Vec<u8>,
}

/// What a response is to the contracts.
pub struct ResponseView {
    pub status: u16,
    pub headers: Seq<HeaderView>,
    pub body: Seq<u8>,
}

impl View for CachedResponse {
    type V = ResponseView;

    open spec fn view(&self) -> ResponseView {
        ResponseView { status: self.status, headers: model(self.headers@), body: self.body@ }
    }
}

/// The response that is a status and nothing else.
pub open spec fn bare(status: u16) -> ResponseView {
    ResponseView { status, headers: Seq::empty(), body: Seq::empty() }
}

impl CachedResponse {
    /// A response without headers and without a body.
    pub fn status_only(status: u16) -> (r: CachedResponse)
        ensures
            r@ == bare(status),
    {
        let r = CachedResponse { status, headers: Vec::new(), body: Vec::new() };
        assert(r@.headers =~= Seq::<HeaderView>::empty());
        r
    }
}

/// The text of a status code, as `200 OK`: the number and its standard
/// reason phrase. A number that is no status code has none.
pub uninterp spec fn status_text(code: u16) -> Option<Seq<u8>>;

/// Makes an `axum::http::StatusCode` of the number with
/// `StatusCode::from_u16` and renders it with `to_string`. The contract
/// claims that the numbers from 100 to 999 are the status codes, and names
/// the text.
#[verifier::external_body]
fn status_line(code: u16) -> (r: Option<Vec<u8>>)
    ensures
        r is Some <==> 100 <= code <= 999,
        match r {
            Some(text) => status_text(code) == Some(text@),
            None => status_text(code) is None,
        },
{
    match axum::http::StatusCode::from_u16(code) {
        Ok(status) => Some(status.to_string().into_bytes()),
        Err(_) => None,
    }
}

/// The bytes of the names and values of a header list.
pub open spec fn fields_weight(headers: Seq<HeaderView>) -> nat
    decreases headers.len(),
{
    if headers.len() == 0 {
        0
    } else {
        fields_weight(headers.drop_last()) + headers.last().name.len() + headers.last().value.len()
    }
}

/// The bytes of a response whose status reads as `status`: the bytes of
/// that text, of the names and values of the headers, and of the body. A
/// status without a text counts for nothing.
pub open spec fn weight_with(
    status: Option<Seq<u8>>,
    headers: Seq<HeaderView>,
    body: Seq<u8>,
) -> nat {
    (match status {
        Some(text) => text.len(),
        None => 0,
    }) + fields_weight(headers) + body.len()
}

/// The weight of an entry in bytes: the text of its status, the names and
/// values of its headers, and its body.
pub open spec fn weight(response: ResponseView) -> nat {
    weight_with(status_text(response.status), response.headers, response.body)
}

/// A byte count as the store takes it: capped at the largest `u32`.
pub open spec fn capped(n: nat) -> u32 {
    if n > u32::MAX {
        u32::MAX
    } else {
        n as u32
    }
}

fn add_capped(acc: u32, n: usize) -> (r: u32)
    ensures
        r == capped((acc + n) as nat),
{
    if n > (u32::MAX - acc) as usize {
        u32::MAX
    } else {
        acc + n as u32
    }
}

/// Weighs a response whose status reads as `status`.
pub fn weigh(status: Option<&Vec<u8>>, headers: &Vec<Header>, body: &Vec<u8>) -> (w: u32)
    ensures
        w == capped(
            weight_with(
                match status {
                    Some(text) => Some(text@),
                    None => None,
                },
                model(headers@),
                body@,
            ),
        ),
{
    let mut acc: u32 = match status {
        Some(text) => add_capped(0, text.len()),
        None => 0,
    };
    let ghost first = acc;
    let ghost fields = model(headers@);
    let mut i: usize = 0;
    assert(fields.take(0) =~= Seq::<HeaderView>::empty());
    while i < headers.len()
        invariant
            i <= headers.len(),
            fields == model(headers@),
            acc == capped((first + fields_weight(fields.take(i as int))) as nat),
        decreases headers.len() - i,
    {
        proof {
            assert(fields.take(i + 1).drop_last() =~= fields.take(i as int));
            assert(fields.take(i + 1).last() == headers@[i as int]@);
        }
        acc = add_capped(acc, headers[i].name.len());
        acc = add_capped(acc, headers[i].value.len());
        i += 1;
    }
    assert(fields.take(headers.len() as int) =~= fields);
    add_capped(acc, body.len())
}

/// Weighs an entry for the store.
pub fn entry_weight(response: &CachedResponse) -> (w: u32)
    ensures
        w == capped(weight(response@)),
{
    let status = status_line(response.status);
    weigh(status.as_ref(), &response.headers, &response.body)
}

/// The longest idle time that the store accepts: a thousand years, in
/// seconds.
pub const MAX_EXPIRATION: u64 = 31_536_000_000;

/// The bytes in one MiB.
pub const MIB: u64 = 1_048_576;

/// The name under which the store reports itself.
pub open spec fn store_name() -> Seq<char> {
    "mnemosyne"@
}

/// The entry cache, a `moka::sync::Cache` from entry IDs to responses. It
/// evicts on its own, when an entry has been idle for too long or when the
/// weight limit is reached, so at any moment it may hold less than what was
/// put into it.
#[verifier::external_body]
pub struct Cache {
    store: moka::sync::Cache<u128, CachedResponse, ahash::RandomState>,
}

/// The entries that the cache may hold: those inserted and not invalidated
/// since. The cache may have evicted any of them; it never holds another.
pub uninterp spec fn may_hold(cache: Cache) -> Map<u128, ResponseView>;

/// The limits that the cache was built with: the weight limit in bytes and
/// the idle time in seconds.
pub uninterp spec fn limits(cache: Cache) -> (u64, u64);

/// The weight limit that the cache was built with, in bytes.
pub open spec fn weight_limit(cache: Cache) -> u64 {
    limits(cache).0
}

/// The idle time that the cache was built with, in seconds.
pub open spec fn idle_limit(cache: Cache) -> u64 {
    limits(cache).1
}

/// No entries.
pub open spec fn nothing() -> Map<u128, ResponseView> {
    Map::empty()
}

/// Builds the store with `moka::sync::Cache::builder`: named, expiring
/// entries idle for `expiration` seconds, weighing entries with
/// `entry_weight`, bounded by `capacity`. The builder panics on an idle
/// time above a thousand years, which `requires` leaves out. The contract
/// claims that the new store is empty and keeps the limits it was given.
#[verifier::external_body]
fn store_build(expiration: u64, capacity: u64) -> (cache: Cache)
    requires
        expiration <= MAX_EXPIRATION,
    ensures
        may_hold(cache) == nothing(),
        limits(cache) == (capacity, expiration),
{
    Cache {
        store: moka::sync::Cache::builder()
            .name("mnemosyne")
            .time_to_idle(std::time::Duration::from_secs(expiration))
            .weigher(|_id: &u128, response: &CachedResponse| entry_weight(response))
            .max_capacity(capacity)
            .build_with_hasher(ahash::RandomState::new()),
    }
}

/// Calls `moka::sync::Cache::get`, which returns a clone of the value and
/// restarts the idle time of the entry. The contract claims that what is
/// found is an entry that the cache may hold.
#[verifier::external_body]
fn store_get(cache: &Cache, id: u128) -> (r: Option<CachedResponse>)
    ensures
        r matches Some(found) ==> may_hold(*cache).contains_key(id) && may_hold(*cache)[id]
            == found@,
{
    cache.store.get(&id)
}

/// Calls `moka::sync::Cache::contains_key`, which does not count as a read.
/// The contract claims that a key that is found is one that the cache may
/// hold.
#[verifier::external_body]
fn store_contains(cache: &Cache, id: u128) -> (r: bool)
    ensures
        r ==> may_hold(*cache).contains_key(id),
{
    cache.store.contains_key(&id)
}

/// Calls `moka::sync::Cache::insert`, which replaces any value under the
/// key. The contract claims that the cache may hold the new entry from now
/// on, in place of any other under that key.
#[verifier::external_body]
fn store_insert(cache: &mut Cache, id: u128, response: CachedResponse)
    ensures
        may_hold(*final(cache)) == may_hold(*old(cache)).insert(id, response@),
        limits(*final(cache)) == limits(*old(cache)),
{
    cache.store.insert(id, response);
}

/// Calls `moka::sync::Cache::invalidate`, which discards the value under
/// the key. The contract claims that the cache holds nothing under that key
/// afterwards.
#[verifier::external_body]
fn store_invalidate(cache: &mut Cache, id: u128)
    ensures
        may_hold(*final(cache)) == may_hold(*old(cache)).remove(id),
        limits(*final(cache)) == limits(*old(cache)),
{
    cache.store.invalidate(&id);
}

/// Calls `moka::sync::Cache::invalidate_all`, after which no entry
/// inserted before is returned again. The contract claims that the cache
/// holds nothing afterwards.
#[verifier::external_body]
fn store_invalidate_all(cache: &mut Cache)
    ensures
        may_hold(*final(cache)) == nothing(),
        limits(*final(cache)) == limits(*old(cache)),
{
    cache.store.invalidate_all();
}

/// Reads `max_capacity` from `moka::sync::Cache::policy`. The contract
/// claims that it is the limit that the store was built with.
#[verifier::external_body]
fn store_limit(cache: &Cache) -> (r: Option<u64>)
    ensures
        r == Some(limits(*cache).0),
{
    cache.store.policy().max_capacity()
}

/// Reads `time_to_idle` from `moka::sync::Cache::policy`, in whole seconds.
/// The contract claims that it is the idle time that the store was built
/// with.
#[verifier::external_body]
fn store_idle(cache: &Cache) -> (r: Option<u64>)
    ensures
        r == Some(limits(*cache).1),
{
    cache.store.policy().time_to_idle().map(|idle| idle.as_secs())
}

/// Calls `moka::sync::Cache::entry_count`, an estimate of which nothing is
/// claimed.
#[verifier::external_body]
fn store_entry_count(cache: &Cache) -> (r: u64) {
    cache.store.entry_count()
}

/// Calls `moka::sync::Cache::weighted_size`, an estimate of which nothing
/// is claimed.
#[verifier::external_body]
fn store_weighted_size(cache: &Cache) -> (r: u64) {
    cache.store.weighted_size()
}

/// Calls `moka::sync::Cache::name`. The contract claims that it is the
/// name given to the builder.
#[verifier::external_body]
fn store_label(cache: &Cache) -> (r: String)
    ensures
        r@ == store_name(),
{
    cache.store.name().unwrap_or_default().to_string()
}

/// A snapshot of the cache's own counters. The counts are estimates.
#[derive(Clone, Debug, PartialEq, Eq)]
pub struct CacheStats {
    pub name: String,
    pub entries: u64,
    pub size: u64,
}

/// The entry ID that the `ETag` header of a request carries, if it has such
/// a header and its value reads as an entry ID.
pub open spec fn etag_id(headers: Seq<HeaderView>) -> Option<u128> {
    match first_value(headers, etag_name()) {
        Some(value) => entry_id_of(value),
        None => None,
    }
}

/// Reads the entry ID that a request presents.
pub fn read_etag(headers: &Vec<Header>) -> (r: Option<EntryId>)
    ensures
        r == etag_id(model(headers@)),
{
    match header_value(headers, "etag".as_bytes()) {
        Some(value) => parse_entry_id(value.as_slice()),
        None => None,
    }
}

impl Cache {
    /// Builds the cache that the configuration describes: entries expire
    /// after `expiration` idle seconds, and their weights sum to at most
    /// `size_limit` MiB.
    pub fn new(config: &Config) -> (cache: Cache)
        requires
            config.cache.expiration <= MAX_EXPIRATION,
            config.cache.size_limit * MIB <= u64::MAX,
        ensures
            may_hold(cache) == nothing(),
            weight_limit(cache) == config.cache.size_limit * MIB,
            idle_limit(cache) == config.cache.expiration,
    {
        store_build(config.cache.expiration, config.cache.size_limit * MIB)
    }

    /// Tells whether the request presents the ID of an entry that the
    /// cache holds. Asking does not keep the entry alive.
    pub fn check_etag(&self, headers: &Vec<Header>) -> (hit: bool)
        ensures
            hit ==> etag_id(model(headers@)) is Some && may_hold(*self).contains_key(
                etag_id(model(headers@))->Some_0,
            ),
    {
        match read_etag(headers) {
            Some(id) => store_contains(self, id),
            None => false,
        }
    }

    /// Looks an entry up, which keeps it alive.
    pub fn get(&self, id: EntryId) -> (r: Option<CachedResponse>)
        ensures
            r matches Some(found) ==> may_hold(*self).contains_key(id) && may_hold(*self)[id]
                == found@,
    {
        store_get(self, id)
    }

    /// Tells whether the cache holds an entry, without keeping it alive.
    pub fn contains(&self, id: EntryId) -> (r: bool)
        ensures
            r ==> may_hold(*self).contains_key(id),
    {
        store_contains(self, id)
    }

    /// Stores an entry, in place of any other under the same ID.
    pub fn insert(&mut self, id: EntryId, response: CachedResponse)
        ensures
            may_hold(*final(self)) == may_hold(*old(self)).insert(id, response@),
            limits(*final(self)) == limits(*old(self)),
    {
        store_insert(self, id, response);
    }

    /// Removes an entry if it is there.
    pub fn invalidate(&mut self, id: EntryId)
        ensures
            may_hold(*final(self)) == may_hold(*old(self)).remove(id),
            limits(*final(self)) == limits(*old(self)),
    {
        store_invalidate(self, id);
    }

    /// Removes every entry.
    pub fn invalidate_all(&mut self)
        ensures
            may_hold(*final(self)) == nothing(),
            limits(*final(self)) == limits(*old(self)),
    {
        store_invalidate_all(self);
    }

    /// The weight limit in bytes.
    pub fn limit(&self) -> (r: Option<u64>)
        ensures
            r == Some(weight_limit(*self)),
    {
        store_limit(self)
    }

    /// The idle time after which an entry expires, in seconds.
    pub fn expiration(&self) -> (r: Option<u64>)
        ensures
            r == Some(idle_limit(*self)),
    {
        store_idle(self)
    }

    /// A snapshot of the cache's counters.
    pub fn stats(&self) -> (r: CacheStats)
        ensures
            r.name@ == store_name(),
    {
        CacheStats {
            name: store_label(self),
            entries: store_entry_count(self),
            size: store_weighted_size(self),
        }
    }
}

} // verus!
