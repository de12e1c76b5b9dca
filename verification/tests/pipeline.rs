use mnemosyne::api::{
    begin, direct_reply, finish, forward, handler, on_found, on_known, persist, tag_response,
    Action, Step, INTERNAL_SERVER_ERROR, NOT_MODIFIED,
};
use mnemosyne::cache::{read_etag, Cache, CachedResponse};
use mnemosyne::config::{CacheConfig, Config};
use mnemosyne::entry_id::{entry_id_text, parse_entry_id};
use mnemosyne::headers::{header_value, Header};
use mnemosyne::index_cache::IndexCache;
use mnemosyne::request::Request;

fn h(name: &str, value: &str) -> Header {
    Header { name: name.as_bytes().to_vec(), value: value.as_bytes().to_vec() }
}

fn get(path: &str, headers: Vec<Header>) -> Request {
    Request { method: b"GET".to_vec(), path_and_query: path.as_bytes().to_vec(), headers }
}

fn proxy_config() -> Config {
    Config {
        listen_address: b"127.0.0.1:9830".to_vec(),
        endpoints: vec![(b"example.com".to_vec(), b"http://127.0.0.1:4000".to_vec())],
        fall_back_endpoint: b"http://127.0.0.1:5000".to_vec(),
        cache: CacheConfig::default(),
    }
}

struct Proxy {
    config: Config,
    cache: Cache,
    index: IndexCache,
    fetched: Vec<Vec<u8>>,
}

fn proxy() -> Proxy {
    let config = proxy_config();
    let cache = Cache::new(&config);
    Proxy { config, cache, index: IndexCache::new(), fetched: vec![] }
}

fn backend(url: &[u8]) -> Option<CachedResponse> {
    if url.starts_with(b"http://127.0.0.1:4000/") {
        Some(CachedResponse {
            status: 200,
            headers: vec![h("content-type", "text/plain; charset=utf-8"), h("content-length", "13")],
            body: b"Hello, World!".to_vec(),
        })
    } else if url.starts_with(b"http://127.0.0.1:5000/") {
        Some(CachedResponse { status: 200, headers: vec![], body: b"fallback".to_vec() })
    } else {
        None
    }
}

fn serve(p: &mut Proxy, request: &Request) -> CachedResponse {
    match handler(&p.cache, &mut p.index, request) {
        Step::Miss => match forward(&p.config, request) {
            Ok(url) => {
                p.fetched.push(url.clone());
                let (reply, fresh) = finish(backend(&url));
                if let Some(id) = fresh {
                    persist(&mut p.cache, &mut p.index, request, id, reply.clone());
                }
                reply
            }
            Err(reply) => reply,
        },
        step => direct_reply(step).unwrap(),
    }
}

fn example(extra: Vec<Header>) -> Request {
    let mut headers = vec![h("host", "example.com")];
    headers.extend(extra);
    get("/", headers)
}

fn etag_of(reply: &CachedResponse) -> Vec<u8> {
    header_value(&reply.headers, b"etag").unwrap().clone()
}

#[test]
fn first_request() {
    let mut p = proxy();
    let rep = serve(&mut p, &example(vec![]));
    assert_eq!(rep.status, 200);
    assert_eq!(rep.body, b"Hello, World!".to_vec());
    assert!(parse_entry_id(&etag_of(&rep)).is_some());
    assert_eq!(p.fetched, vec![b"http://127.0.0.1:4000/".to_vec()]);
}

#[test]
fn correct_etag() {
    let mut p = proxy();
    let rep = serve(&mut p, &example(vec![]));
    assert_eq!(rep.status, 200);
    let etag = etag_of(&rep);
    let rep = serve(&mut p, &example(vec![Header { name: b"etag".to_vec(), value: etag }]));
    assert_eq!(rep.status, 304);
    assert_eq!(rep, CachedResponse { status: NOT_MODIFIED, headers: vec![], body: vec![] });
    assert_eq!(p.fetched.len(), 1);
}

#[test]
fn incorrect_etag() {
    let mut p = proxy();
    let rep = serve(&mut p, &example(vec![]));
    assert_eq!(rep.status, 200);
    let served = etag_of(&rep);
    let other = entry_id_text(parse_entry_id(&served).unwrap() ^ 1);
    let rep = serve(&mut p, &example(vec![Header { name: b"etag".to_vec(), value: other }]));
    assert_eq!(rep.status, 200);
    assert_eq!(rep.body, b"Hello, World!".to_vec());
    assert_eq!(etag_of(&rep), served);
    assert_eq!(p.fetched.len(), 1);
}

#[test]
fn cache_served() {
    let mut p = proxy();
    let rep = serve(&mut p, &example(vec![]));
    assert_eq!(rep.status, 200);
    let etag = etag_of(&rep);
    let raw = mnemosyne::api::cache::get_cache_entry(&p.cache, &etag);
    assert_eq!(raw.status, 200);
    assert_eq!(raw, rep);
    let again = serve(&mut p, &example(vec![]));
    assert_eq!(again.status, 200);
    assert_eq!(again, rep);
    assert_eq!(etag_of(&again), etag);
    assert_eq!(p.fetched.len(), 1);
}

#[test]
fn cache_must_be_empty() {
    let mut p = proxy();
    let rep = serve(&mut p, &example(vec![]));
    assert_eq!(rep.status, 200);
    let etag = etag_of(&rep);
    assert_eq!(
        mnemosyne::api::cache::delete_entry_per_uuid(&mut p.cache, &mut p.index, &etag),
        200
    );
    assert_eq!(mnemosyne::api::cache::get_cache_entry(&p.cache, &etag).status, 404);
    let again = serve(&mut p, &example(vec![]));
    assert_eq!(again.status, 200);
    assert_ne!(etag_of(&again), etag);
    assert_eq!(p.fetched.len(), 2);
}

#[test]
fn unknown_host_is_routed_to_the_fall_back() {
    let mut p = proxy();
    let rep = serve(&mut p, &get("/", vec![h("host", "other.example")]));
    assert_eq!(rep.status, 200);
    assert_eq!(rep.body, b"fallback".to_vec());
    assert_eq!(p.fetched, vec![b"http://127.0.0.1:5000/".to_vec()]);
}

#[test]
fn request_without_host_is_served_and_not_cached() {
    let mut p = proxy();
    let rep = serve(&mut p, &get("/", vec![]));
    assert_eq!(rep.body, b"fallback".to_vec());
    let id = parse_entry_id(&etag_of(&rep)).unwrap();
    assert!(!p.cache.contains(id));
    let again = serve(&mut p, &get("/", vec![]));
    assert_ne!(etag_of(&again), etag_of(&rep));
    assert_eq!(p.fetched.len(), 2);
}

#[test]
fn transport_failure_is_a_500_and_nothing_is_cached() {
    let mut p = proxy();
    p.config.fall_back_endpoint = b"http://127.0.0.1:6000".to_vec();
    let request = get("/", vec![h("host", "down.example")]);
    let rep = serve(&mut p, &request);
    assert_eq!(rep, CachedResponse { status: 500, headers: vec![], body: vec![] });
    assert_eq!(p.index.request_to_uuid(&request), None);
    assert_eq!(p.cache.stats().entries, 0);
    assert_eq!(finish(None), (CachedResponse::status_only(INTERNAL_SERVER_ERROR), None));
}

#[test]
fn unparseable_backend_url_fails_the_request() {
    let mut p = proxy();
    p.config.fall_back_endpoint = b"nowhere".to_vec();
    let request = get("/", vec![h("host", "other.example")]);
    assert_eq!(forward(&p.config, &request), Err(CachedResponse::status_only(500)));
    assert_eq!(handler(&p.cache, &mut p.index, &request), Step::Miss);
    assert_eq!(serve(&mut p, &request), CachedResponse::status_only(500));
    assert!(p.fetched.is_empty());
}

#[test]
fn forward_gives_the_backend_url() {
    let p = proxy();
    assert_eq!(
        forward(&p.config, &get("/a?b=c", vec![h("Host", "example.com")])),
        Ok(b"http://127.0.0.1:4000/a?b=c".to_vec())
    );
    assert_eq!(
        forward(&p.config, &get("/a?b=c", vec![])),
        Ok(b"http://127.0.0.1:5000/a?b=c".to_vec())
    );
}

#[test]
fn direct_reply_of_each_step() {
    assert_eq!(direct_reply(Step::Miss), None);
    assert_eq!(direct_reply(Step::NotModified), Some(CachedResponse::status_only(304)));
    let entry = CachedResponse { status: 203, headers: vec![h("a", "b")], body: b"c".to_vec() };
    assert_eq!(direct_reply(Step::Serve(entry.clone())), Some(entry));
}

#[test]
fn begin_asks_about_a_presented_entry_first() {
    let p = proxy();
    let request = example(vec![Header { name: b"ETag".to_vec(), value: entry_id_text(5) }]);
    assert_eq!(begin(&p.index, &request), Action::AskKnown(5));
}

#[test]
fn begin_without_etag_goes_to_the_index() {
    let mut p = proxy();
    let request = example(vec![]);
    assert_eq!(begin(&p.index, &request), Action::Finish(Step::Miss));
    p.index.add_entry(8, b"GET".to_vec(), b"/".to_vec(), b"example.com".to_vec(), vec![]);
    assert_eq!(begin(&p.index, &request), Action::AskEntry(8));
    let garbled = example(vec![h("etag", "garbled")]);
    assert_eq!(begin(&p.index, &garbled), Action::AskEntry(8));
}

#[test]
fn on_known_answers_304_for_a_live_entry() {
    let mut p = proxy();
    let request = example(vec![Header { name: b"ETag".to_vec(), value: entry_id_text(5) }]);
    assert_eq!(on_known(&p.index, &request, true), Action::Finish(Step::NotModified));
    assert_eq!(on_known(&p.index, &request, false), Action::Finish(Step::Miss));
    p.index.add_entry(8, b"GET".to_vec(), b"/".to_vec(), b"example.com".to_vec(), vec![]);
    assert_eq!(on_known(&p.index, &request, false), Action::AskEntry(8));
    assert_eq!(on_known(&p.index, &request, true), Action::Finish(Step::NotModified));
}

#[test]
fn on_found_serves_what_the_cache_gave() {
    let mut p = proxy();
    let request = example(vec![]);
    p.index.add_entry(8, b"GET".to_vec(), b"/".to_vec(), b"example.com".to_vec(), vec![]);
    let entry = CachedResponse { status: 203, headers: vec![h("a", "b")], body: b"c".to_vec() };
    assert_eq!(on_found(&mut p.index, 8, Some(entry.clone())), Step::Serve(entry));
    assert_eq!(p.index.request_to_uuid(&request), Some(8));
}

#[test]
fn on_found_repairs_the_index_when_the_entry_is_gone() {
    let mut p = proxy();
    let request = example(vec![]);
    p.index.add_entry(8, b"GET".to_vec(), b"/".to_vec(), b"example.com".to_vec(), vec![]);
    p.index.add_entry(8, b"GET".to_vec(), b"/x".to_vec(), b"example.com".to_vec(), vec![]);
    p.index.add_entry(9, b"GET".to_vec(), b"/x".to_vec(), b"example.com".to_vec(), vec![]);
    assert_eq!(on_found(&mut p.index, 8, None), Step::Miss);
    assert_eq!(p.index.request_to_uuid(&request), None);
    assert_eq!(p.index.request_to_uuid(&get("/x", vec![h("host", "example.com")])), Some(9));
}

#[test]
fn stale_index_entry_is_repaired_by_the_lookup_that_finds_it() {
    let mut p = proxy();
    let request = example(vec![]);
    let first = serve(&mut p, &request);
    let id = parse_entry_id(&etag_of(&first)).unwrap();
    p.cache.invalidate(id);
    assert_eq!(p.index.request_to_uuid(&request), Some(id));
    let step = handler(&p.cache, &mut p.index, &request);
    assert_eq!(step, Step::Miss);
    assert_eq!(p.index.request_to_uuid(&request), None);
}

#[test]
fn tag_response_replaces_any_etag_of_the_backend() {
    let backend = CachedResponse {
        status: 200,
        headers: vec![h("ETag", "\"from-backend\""), h("vary", "accept"), h("etag", "W/\"x\"")],
        body: b"body".to_vec(),
    };
    let tagged = tag_response(backend, 0x10);
    assert_eq!(
        tagged,
        CachedResponse {
            status: 200,
            headers: vec![h("vary", "accept"), h("etag", "00000000-0000-0000-0000-000000000010")],
            body: b"body".to_vec(),
        }
    );
    assert_eq!(read_etag(&tagged.headers), Some(0x10));
}

#[test]
fn finish_mints_a_fresh_id_for_every_response() {
    let (a, ida) = finish(Some(CachedResponse::status_only(200)));
    let (b, idb) = finish(Some(CachedResponse::status_only(200)));
    assert!(ida.is_some() && idb.is_some());
    assert_ne!(ida, idb);
    assert_eq!(read_etag(&a.headers), ida);
    assert_eq!(read_etag(&b.headers), idb);
    assert_eq!(a.status, 200);
}

#[test]
fn persist_indexes_under_the_varied_headers() {
    let mut p = proxy();
    let french = example(vec![h("accept-language", "fr"), h("user-agent", "a")]);
    let german = example(vec![h("accept-language", "de"), h("user-agent", "a")]);
    let response = CachedResponse {
        status: 200,
        headers: vec![h("Vary", "Accept-Language")],
        body: b"bonjour".to_vec(),
    };
    assert!(persist(&mut p.cache, &mut p.index, &french, 1, response.clone()));
    assert_eq!(p.index.request_to_uuid(&french), Some(1));
    assert_eq!(p.index.request_to_uuid(&german), None);
    assert_eq!(p.cache.get(1), Some(response));
    let other_agent = example(vec![h("user-agent", "b"), h("Accept-Language", "fr")]);
    assert_eq!(p.index.request_to_uuid(&other_agent), Some(1));
}

#[test]
fn persist_with_malformed_vary_caches_with_an_empty_selector() {
    let mut p = proxy();
    let request = example(vec![h("accept-language", "fr")]);
    let response = CachedResponse {
        status: 200,
        headers: vec![Header { name: b"vary".to_vec(), value: vec![0xff] }],
        body: vec![],
    };
    assert!(persist(&mut p.cache, &mut p.index, &request, 3, response.clone()));
    assert_eq!(p.cache.get(3), Some(response));
    assert_eq!(p.index.request_to_uuid(&example(vec![h("accept-language", "de")])), Some(3));
}

#[test]
fn persist_without_host_stores_nothing() {
    let mut p = proxy();
    let request = get("/", vec![h("accept", "a")]);
    assert!(!persist(&mut p.cache, &mut p.index, &request, 3, CachedResponse::status_only(200)));
    assert_eq!(p.cache.get(3), None);
    assert_eq!(p.index.request_to_uuid(&request), None);
}

#[test]
fn vary_star_lets_any_later_request_hit() {
    let mut p = proxy();
    let request = example(vec![h("accept", "a")]);
    let response =
        CachedResponse { status: 200, headers: vec![h("vary", "*")], body: b"x".to_vec() };
    assert!(persist(&mut p.cache, &mut p.index, &request, 4, response));
    assert_eq!(p.index.request_to_uuid(&example(vec![h("accept", "zzz")])), Some(4));
}

#[test]
fn varied_requests_are_served_their_own_entries() {
    let mut p = proxy();
    p.config.endpoints = vec![(b"example.com".to_vec(), b"http://127.0.0.1:7000".to_vec())];
    let make = |lang: &str| example(vec![h("accept-language", lang)]);
    let mut bodies = vec![];
    for lang in ["fr", "de", "fr", "de"] {
        let request = make(lang);
        let reply = match handler(&p.cache, &mut p.index, &request) {
            Step::Miss => {
                let answer = CachedResponse {
                    status: 200,
                    headers: vec![h("vary", "accept-language")],
                    body: lang.as_bytes().to_vec(),
                };
                p.fetched.push(lang.as_bytes().to_vec());
                let (reply, fresh) = finish(Some(answer));
                persist(&mut p.cache, &mut p.index, &request, fresh.unwrap(), reply.clone());
                reply
            }
            step => direct_reply(step).unwrap(),
        };
        bodies.push(reply.body);
    }
    assert_eq!(bodies, vec![b"fr".to_vec(), b"de".to_vec(), b"fr".to_vec(), b"de".to_vec()]);
    assert_eq!(p.fetched, vec![b"fr".to_vec(), b"de".to_vec()]);
}
