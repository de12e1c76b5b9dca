//! The request pipeline: the ordered decisions that, for one inbound
//! request, lead to a `304`, to a cached response, or to the backend, and
//! what becomes of the backend's answer.

use crate::backend::url_parse;
use crate::cache::{
    bare, etag_id, limits, may_hold, read_etag, Cache, CachedResponse, ResponseView,
};
use crate::config::{backend_text, Config, ConfigView};
use crate::entry_id::{canonical_text, entry_id_text, mint_entry_id, EntryId};
use crate::headers::{
    first_value, header_value, lemma_select_subsumed, model, not_named, replaced, select,
    set_header, subsumes, Header, HeaderView,
};
use crate::index_cache::{
    headers_match_vary, holds_id, key_of, lemma_without_id_forgets, lookup, with_entry, without_id,
    EntryView, IndexCache, IndexMap,
};
use crate::request::{etag_name, host_name, vary_name, Request, RequestView};
use crate::text::{copy_bytes, is_text, same_name};
use vstd::prelude::*;
use vstd::string::StrSliceExecFns;

pub mod cache;
pub mod config;

verus! {

/// The status of a reply to a request that presented the ID of a live
/// entry.
pub const NOT_MODIFIED: u16 = 304;

/// The status of a reply where the backend could not be reached.
pub const INTERNAL_SERVER_ERROR: u16 = 500;

/// The status of a successful administrative request.
pub const OK: u16 = 200;

/// The status of an administrative request that names nothing known.
pub const NOT_FOUND: u16 = 404;

/// What the pipeline decides from the two stores, before the backend is
/// involved.
#[derive(Clone, Debug, PartialEq, Eq)]
pub enum Step {
    /// Answer `304 Not Modified`, without a body.
    NotModified,
    /// Answer with this cached response.
    Serve(CachedResponse),
    /// Nothing usable is cached: the request goes to the backend.
    Miss,
}

/// What a step is to the contracts.
pub enum StepView {
    NotModified,
    Serve(ResponseView),
    Miss,
}

impl View for Step {
    type V = StepView;

    open spec fn view(&self) -> StepView {
        match self {
            Step::NotModified => StepView::NotModified,
            Step::Serve(response) => StepView::Serve(response@),
            Step::Miss => StepView::Miss,
        }
    }
}

/// What the pipeline does next: a question to the entry cache, or its
/// decision.
#[derive(Clone, Debug, PartialEq, Eq)]
pub enum Action {
    /// Ask the cache whether it holds this entry, without reading it.
    AskKnown(EntryId),
    /// Ask the cache for this entry.
    AskEntry(EntryId),
    /// The decision.
    Finish(Step),
}

/// What an action is to the contracts.
pub enum ActionView {
    AskKnown(u128),
    AskEntry(u128),
    Finish(StepView),
}

impl View for Action {
    type V = ActionView;

    open spec fn view(&self) -> ActionView {
        match self {
            Action::AskKnown(id) => ActionView::AskKnown(*id),
            Action::AskEntry(id) => ActionView::AskEntry(*id),
            Action::Finish(step) => ActionView::Finish(step@),
        }
    }
}

/// `action` is what follows once the fast path is out of the way: the
/// question for the entry that the index names, or a miss where it names
/// none.
pub open spec fn seeks(action: ActionView, index: IndexMap, request: RequestView) -> bool {
    match lookup(index, request) {
        Some(id) => action == ActionView::AskEntry(id),
        None => action == ActionView::Finish(StepView::Miss),
    }
}

/// What `begin` decides: a request that presents an entry ID has the cache
/// asked about that entry; any other request goes to the index.
pub open spec fn begins(action: ActionView, index: IndexMap, request: RequestView) -> bool {
    match etag_id(request.headers) {
        Some(id) => action == ActionView::AskKnown(id),
        None => seeks(action, index, request),
    }
}

/// What `on_known` decides: `304` if the cache holds the entry that was
/// presented, the way through the index if not.
pub open spec fn continues(
    action: ActionView,
    known: bool,
    index: IndexMap,
    request: RequestView,
) -> bool {
    if known {
        action == ActionView::Finish(StepView::NotModified)
    } else {
        seeks(action, index, request)
    }
}

/// The index after a lookup for `request` found a stale entry: without the
/// ID that the lookup gave.
pub open spec fn repaired(index: IndexMap, request: RequestView) -> IndexMap {
    match lookup(index, request) {
        Some(id) => without_id(index, id),
        None => index,
    }
}

/// What holds of one run of the pipeline over the two stores, whatever the
/// entry cache answered: `step` was decided for `request` on the index
/// `index` and a cache that may hold `held`, and left the index as `after`.
pub open spec fn handled(
    index: IndexMap,
    held: Map<u128, ResponseView>,
    request: RequestView,
    step: StepView,
    after: IndexMap,
) -> bool {
    match step {
        StepView::NotModified => {
            &&& etag_id(request.headers) matches Some(id)
            &&& held.contains_key(id)
            &&& after == index
        },
        StepView::Serve(response) => {
            &&& lookup(index, request) matches Some(id)
            &&& held.contains_key(id)
            &&& held[id] == response
            &&& after == index
        },
        StepView::Miss => after == repaired(index, request),
    }
}

/// Consults the index once the fast path is out of the way.
fn seek(index: &IndexCache, request: &Request) -> (action: Action)
    requires
        index.wf(),
    ensures
        seeks(action@, index@, request@),
{
    match index.request_to_uuid(request) {
        Some(id) => Action::AskEntry(id),
        None => Action::Finish(Step::Miss),
    }
}

/// Starts the pipeline. A request that presents an entry ID takes the fast
/// path first: the cache is asked whether it holds that entry. Any other
/// request goes to the index at once.
pub fn begin(index: &IndexCache, request: &Request) -> (action: Action)
    requires
        index.wf(),
    ensures
        begins(action@, index@, request@),
{
    match read_etag(&request.headers) {
        Some(id) => Action::AskKnown(id),
        None => seek(index, request),
    }
}

/// Goes on after the cache said whether it holds the entry that the
/// request presented. If it does, the answer is `304`; if not, the index is
/// consulted.
pub fn on_known(index: &IndexCache, request: &Request, known: bool) -> (action: Action)
    requires
        index.wf(),
    ensures
        continues(action@, known, index@, request@),
{
    if known {
        Action::Finish(Step::NotModified)
    } else {
        seek(index, request)
    }
}

/// Goes on after the cache was asked for the entry `id` that the index
/// named. An entry that was found is served. If the cache no longer has
/// it, the index is repaired, by dropping `id` from it, and the request
/// misses.
pub fn on_found(index: &mut IndexCache, id: EntryId, found: Option<CachedResponse>) -> (step: Step)
    requires
        old(index).wf(),
    ensures
        final(index).wf(),
        match found {
            Some(response) => step@ == StepView::Serve(response@) && final(index)@ == old(index)@,
            None => {
                &&& step@ == StepView::Miss
                &&& final(index)@ == without_id(old(index)@, id)
                &&& !holds_id(final(index)@, id)
            },
        },
{
    match found {
        Some(response) => Step::Serve(response),
        None => {
            index.delete_uuid_from_index(&id);
            proof {
                lemma_without_id_forgets(old(index)@, id);
            }
            Step::Miss
        },
    }
}

/// Runs the pipeline for one request over the two stores: the fast path,
/// then the lookup with its lazy repair. The entry cache decides on its own
/// what it still holds, so the contract says what holds whichever way it
/// answered.
pub fn handler(cache: &Cache, index: &mut IndexCache, request: &Request) -> (step: Step)
    requires
        old(index).wf(),
    ensures
        final(index).wf(),
        handled(old(index)@, may_hold(*cache), request@, step@, final(index)@),
        step@ is Miss ==> (lookup(old(index)@, request@) matches Some(id) ==> !holds_id(
            final(index)@,
            id,
        )),
{
    let first = begin(index, request);
    let second = match first {
        Action::AskKnown(id) => {
            let known = cache.contains(id);
            on_known(index, request, known)
        },
        other => other,
    };
    match second {
        Action::AskEntry(id) => {
            let found = cache.get(id);
            on_found(index, id, found)
        },
        Action::Finish(step) => step,
        Action::AskKnown(_) => {
            assert(false);
            Step::Miss
        },
    }
}

/// The text of the backend URL of a request.
pub open spec fn target(config: ConfigView, request: RequestView) -> Seq<u8> {
    backend_text(config, request.path_and_query, first_value(request.headers, host_name()))
}

/// Resolves the backend URL of a request that missed. Where the
/// configuration yields no URL for it, the reply is a `500`.
pub fn forward(config: &Config, request: &Request) -> (r: Result<Vec<u8>, CachedResponse>)
    ensures
        match r {
            Ok(url) => url_parse(target(config@, request@)) == Some(url@),
            Err(reply) => url_parse(target(config@, request@)) is None && reply@ == bare(
                INTERNAL_SERVER_ERROR,
            ),
        },
{
    match config.to_backend_uri(&request.path_and_query, request.host()) {
        Some(url) => Ok(url),
        None => Err(CachedResponse::status_only(INTERNAL_SERVER_ERROR)),
    }
}

/// The reply that a step amounts to, where it is one: a `304` without
/// headers or body, or a cached response as it was stored. A miss is no
/// reply yet.
pub fn direct_reply(step: Step) -> (r: Option<CachedResponse>)
    ensures
        match step@ {
            StepView::NotModified => r is Some && r->Some_0@ == bare(NOT_MODIFIED),
            StepView::Serve(response) => r is Some && r->Some_0@ == response,
            StepView::Miss => r is None,
        },
{
    match step {
        Step::NotModified => Some(CachedResponse::status_only(NOT_MODIFIED)),
        Step::Serve(response) => Some(response),
        Step::Miss => None,
    }
}

/// A backend response with the `ETag` of the entry `id`: any `ETag` that
/// the backend sent is replaced.
pub open spec fn tagged(response: ResponseView, id: u128) -> ResponseView {
    ResponseView {
        status: response.status,
        headers: replaced(response.headers, etag_name(), canonical_text(id)),
        body: response.body,
    }
}

proof fn lemma_same_name_reflexive(name: Seq<u8>)
    ensures
        same_name(name, name),
{
}

proof fn lemma_first_value_last(headers: Seq<HeaderView>, last: HeaderView, name: Seq<u8>)
    requires
        forall|i: int| 0 <= i < headers.len() ==> !same_name((#[trigger] headers[i]).name, name),
        same_name(last.name, name),
    ensures
        first_value(headers.push(last), name) == Some(last.value),
    decreases headers.len(),
{
    let all = headers.push(last);
    if headers.len() == 0 {
        assert(all[0] == last);
    } else {
        assert(all[0] == headers[0]);
        assert(all.skip(1) =~= headers.skip(1).push(last));
        assert forall|i: int| 0 <= i < headers.skip(1).len() implies !same_name(
            (#[trigger] headers.skip(1)[i]).name,
            name,
        ) by {
            assert(headers.skip(1)[i] == headers[i + 1]);
        }
        lemma_first_value_last(headers.skip(1), last, name);
    }
}

/// A header that was set is the one that a lookup by its name finds.
pub proof fn lemma_replaced_is_found(headers: Seq<HeaderView>, name: Seq<u8>, value: Seq<u8>)
    ensures
        first_value(replaced(headers, name, value), name) == Some(value),
{
    let kept = headers.filter(not_named(name));
    assert forall|i: int| 0 <= i < kept.len() implies !same_name(
        (#[trigger] kept[i]).name,
        name,
    ) by {
        headers.lemma_filter_pred(not_named(name), i);
    }
    lemma_same_name_reflexive(name);
    lemma_first_value_last(kept, HeaderView { name, value }, name);
}

/// Puts the `ETag` of the entry `id` on a backend response. Read back from
/// the response, the `ETag` gives `id` again.
pub fn tag_response(response: CachedResponse, id: EntryId) -> (r: CachedResponse)
    ensures
        r@ == tagged(response@, id),
        etag_id(r@.headers) == Some(id),
{
    let CachedResponse { status, headers, body } = response;
    let text = entry_id_text(id);
    proof {
        lemma_replaced_is_found(model(headers@), etag_name(), text@);
    }
    CachedResponse { status, headers: set_header(headers, "etag".as_bytes_vec(), text), body }
}

/// The round trip of an `ETag`. Let a response be served with the `ETag` of
/// the entry `id`, and let a later request replay that `ETag`. Then the
/// pipeline begins by asking the cache about `id`, and answers `304` once
/// the cache says that it holds the entry.
pub proof fn lemma_etag_round_trip(
    served: ResponseView,
    id: u128,
    request: RequestView,
    index: IndexMap,
    first: ActionView,
    second: ActionView,
)
    requires
        etag_id(served.headers) == Some(id),
        first_value(request.headers, etag_name()) == first_value(served.headers, etag_name()),
        begins(first, index, request),
        continues(second, true, index, request),
    ensures
        first == ActionView::AskKnown(id),
        second == ActionView::Finish(StepView::NotModified),
{
}

/// Turns the outcome of the backend call into the reply. A response is
/// given a freshly minted entry ID, which comes back with the reply so that
/// the pair can be persisted; a transport failure becomes a `500` and
/// nothing is to be persisted.
pub fn finish(outcome: Option<CachedResponse>) -> (r: (CachedResponse, Option<EntryId>))
    ensures
        match outcome {
            Some(response) => {
                &&& r.1 matches Some(id)
                &&& r.0@ == tagged(response@, id)
                &&& etag_id(r.0@.headers) == Some(id)
            },
            None => r.0@ == bare(INTERNAL_SERVER_ERROR) && r.1 is None,
        },
{
    match outcome {
        Some(response) => {
            let id = mint_entry_id();
            (tag_response(response, id), Some(id))
        },
        None => (CachedResponse::status_only(INTERNAL_SERVER_ERROR), None),
    }
}

/// The selector under which a response is indexed: the request headers
/// that its `Vary` header names, or none where it has no `Vary` header or
/// one that is not text.
pub open spec fn selector_for(request: Seq<HeaderView>, response: Seq<HeaderView>) -> Seq<
    HeaderView,
> {
    match first_value(response, vary_name()) {
        Some(vary) => if is_text(vary) {
            select(request, vary)
        } else {
            Seq::empty()
        },
        None => Seq::empty(),
    }
}

/// A request subsumes the selector that its response is indexed under.
pub proof fn lemma_selector_subsumed(request: Seq<HeaderView>, response: Seq<HeaderView>)
    ensures
        subsumes(request, selector_for(request, response)),
{
    match first_value(response, vary_name()) {
        Some(vary) => {
            lemma_select_subsumed(request, vary);
        },
        None => {},
    }
}

/// Persists a served response: indexes it under the key of the request,
/// with the selector that its `Vary` header asks for, and stores it in the
/// cache. A request without a `Host` header has no key: nothing is stored
/// then.
pub fn persist(
    cache: &mut Cache,
    index: &mut IndexCache,
    request: &Request,
    id: EntryId,
    response: CachedResponse,
) -> (stored: bool)
    requires
        old(index).wf(),
    ensures
        final(index).wf(),
        limits(*final(cache)) == limits(*old(cache)),
        match key_of(request@) {
            Some(key) => {
                &&& stored
                &&& final(index)@ == with_entry(
                    old(index)@,
                    key,
                    EntryView { id, selector: selector_for(request@.headers, response@.headers) },
                )
                &&& may_hold(*final(cache)) == may_hold(*old(cache)).insert(id, response@)
            },
            None => {
                &&& !stored
                &&& final(index)@ == old(index)@
                &&& may_hold(*final(cache)) == may_hold(*old(cache))
            },
        },
{
    let host = match request.host() {
        Some(host) => copy_bytes(host.as_slice()),
        None => {
            return false;
        },
    };
    let selector = match headers_match_vary(
        &request.headers,
        header_value(&response.headers, "vary".as_bytes()),
    ) {
        Ok(selector) => selector,
        Err(_) => {
            let none: Vec<Header> = Vec::new();
            assert(model(none@) =~= Seq::<HeaderView>::empty());
            none
        },
    };
    index.add_entry(
        id,
        copy_bytes(request.method.as_slice()),
        copy_bytes(request.path_and_query.as_slice()),
        host,
        selector,
    );
    cache.insert(id, response);
    true
}

} // verus!
