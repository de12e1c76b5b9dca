use mnemosyne::api::cache::{
    cache_stats, delete_entries, delete_entries_per_path, delete_entry_per_uuid, entry_reply,
    forget, get_cache_entry,
};
use mnemosyne::api::config::{
    add_endpoint, delete_endpoint, delete_endpoints, get_fallback_value, set_fallback_value,
};
use mnemosyne::api::{handler, Step, NOT_FOUND, OK};
use mnemosyne::cache::{Cache, CachedResponse};
use mnemosyne::config::Config;
use mnemosyne::entry_id::entry_id_text;
use mnemosyne::headers::Header;
use mnemosyne::index_cache::IndexCache;
use mnemosyne::request::Request;

fn h(name: &str, value: &str) -> Header {
    Header { name: name.as_bytes().to_vec(), value: value.as_bytes().to_vec() }
}

fn get(path: &str, host: &str) -> Request {
    Request {
        method: b"GET".to_vec(),
        path_and_query: path.as_bytes().to_vec(),
        headers: vec![h("host", host)],
    }
}

fn entry(body: &str) -> CachedResponse {
    CachedResponse { status: 200, headers: vec![h("etag", "x")], body: body.as_bytes().to_vec() }
}

fn stores() -> (Cache, IndexCache) {
    (Cache::new(&Config::default()), IndexCache::new())
}

fn put(cache: &mut Cache, index: &mut IndexCache, id: u128, method: &str, path: &str, host: &str) {
    index.add_entry(
        id,
        method.as_bytes().to_vec(),
        path.as_bytes().to_vec(),
        host.as_bytes().to_vec(),
        vec![],
    );
    cache.insert(id, entry(path));
}

#[test]
fn status_constants() {
    assert_eq!(OK, 200);
    assert_eq!(NOT_FOUND, 404);
}

#[test]
fn cache_stats_name_the_store() {
    let (cache, _) = stores();
    assert_eq!(cache_stats(&cache).name, "mnemosyne");
}

#[test]
fn delete_by_id_removes_from_both_stores() {
    let (mut cache, mut index) = stores();
    put(&mut cache, &mut index, 1, "GET", "/a", "example.com");
    put(&mut cache, &mut index, 2, "GET", "/b", "example.com");
    assert_eq!(delete_entry_per_uuid(&mut cache, &mut index, &entry_id_text(1)), 200);
    assert_eq!(cache.get(1), None);
    assert_eq!(index.request_to_uuid(&get("/a", "example.com")), None);
    assert_eq!(cache.get(2), Some(entry("/b")));
    assert_eq!(index.request_to_uuid(&get("/b", "example.com")), Some(2));
}

#[test]
fn delete_by_id_twice_gives_success_then_404() {
    let (mut cache, mut index) = stores();
    put(&mut cache, &mut index, 1, "GET", "/a", "example.com");
    put(&mut cache, &mut index, 2, "GET", "/a", "example.com");
    let path = entry_id_text(1);
    assert_eq!(delete_entry_per_uuid(&mut cache, &mut index, &path), 200);
    assert_eq!(delete_entry_per_uuid(&mut cache, &mut index, &path), 404);
    assert_eq!(cache.get(2), Some(entry("/a")));
    assert_eq!(index.request_to_uuid(&get("/a", "example.com")), Some(2));
    assert_eq!(delete_entry_per_uuid(&mut cache, &mut index, &path), 404);
}

#[test]
fn delete_by_malformed_or_unknown_id_is_404() {
    let (mut cache, mut index) = stores();
    put(&mut cache, &mut index, 1, "GET", "/a", "example.com");
    assert_eq!(delete_entry_per_uuid(&mut cache, &mut index, b"not-an-id"), 404);
    assert_eq!(delete_entry_per_uuid(&mut cache, &mut index, b""), 404);
    assert_eq!(delete_entry_per_uuid(&mut cache, &mut index, &entry_id_text(99)), 404);
    assert_eq!(cache.get(1), Some(entry("/a")));
    assert_eq!(index.request_to_uuid(&get("/a", "example.com")), Some(1));
}

#[test]
fn delete_by_id_cleans_a_stale_index_entry() {
    let (mut cache, mut index) = stores();
    put(&mut cache, &mut index, 1, "GET", "/a", "example.com");
    cache.invalidate(1);
    assert_eq!(delete_entry_per_uuid(&mut cache, &mut index, &entry_id_text(1)), 404);
    assert_eq!(index.request_to_uuid(&get("/a", "example.com")), None);
}

#[test]
fn forget_reports_what_the_cache_knew() {
    let (mut cache, mut index) = stores();
    put(&mut cache, &mut index, 1, "GET", "/a", "example.com");
    assert_eq!(forget(&mut cache, &mut index, 1, true), 200);
    assert_eq!(cache.get(1), None);
    assert_eq!(index.request_to_uuid(&get("/a", "example.com")), None);
    assert_eq!(forget(&mut cache, &mut index, 1, false), 404);
}

#[test]
fn delete_by_path_purges_index_and_cache() {
    let (mut cache, mut index) = stores();
    put(&mut cache, &mut index, 1, "GET", "/a", "one.example");
    put(&mut cache, &mut index, 2, "GET", "/a", "two.example");
    put(&mut cache, &mut index, 3, "POST", "/a", "one.example");
    put(&mut cache, &mut index, 4, "GET", "/b", "one.example");
    assert_eq!(delete_entries_per_path(&mut cache, &mut index, b"/a"), 200);
    assert_eq!(cache.get(1), None);
    assert_eq!(cache.get(2), None);
    assert_eq!(cache.get(3), Some(entry("/a")));
    assert_eq!(cache.get(4), Some(entry("/b")));
    assert_eq!(index.request_to_uuid(&get("/a", "one.example")), None);
    assert_eq!(index.request_to_uuid(&get("/a", "two.example")), None);
    assert_eq!(index.request_to_uuid(&get("/b", "one.example")), Some(4));
    assert_eq!(delete_entries_per_path(&mut cache, &mut index, b"/a"), 404);
}

#[test]
fn delete_by_unknown_path_is_404() {
    let (mut cache, mut index) = stores();
    put(&mut cache, &mut index, 3, "POST", "/a", "one.example");
    assert_eq!(delete_entries_per_path(&mut cache, &mut index, b"/a"), 404);
    assert_eq!(delete_entries_per_path(&mut cache, &mut index, b"/nothing"), 404);
    assert_eq!(cache.get(3), Some(entry("/a")));
}

#[test]
fn get_cache_entry_returns_the_raw_entry_or_404() {
    let (mut cache, mut index) = stores();
    put(&mut cache, &mut index, 1, "GET", "/a", "one.example");
    assert_eq!(get_cache_entry(&cache, &entry_id_text(1)), entry("/a"));
    assert_eq!(get_cache_entry(&cache, &entry_id_text(2)), CachedResponse::status_only(404));
    assert_eq!(get_cache_entry(&cache, b"garbage"), CachedResponse::status_only(404));
    assert_eq!(entry_reply(None), CachedResponse::status_only(404));
    assert_eq!(entry_reply(Some(entry("x"))), entry("x"));
}

#[test]
fn flush_empties_both_stores_and_the_next_request_misses() {
    let (mut cache, mut index) = stores();
    put(&mut cache, &mut index, 1, "GET", "/a", "example.com");
    put(&mut cache, &mut index, 2, "GET", "/b", "example.com");
    assert_eq!(delete_entries(&mut cache, &mut index), 200);
    assert_eq!(cache.get(1), None);
    assert_eq!(cache.get(2), None);
    assert_eq!(index.request_to_uuid(&get("/a", "example.com")), None);
    let mut request = get("/a", "example.com");
    request.headers.push(Header { name: b"etag".to_vec(), value: entry_id_text(1) });
    assert_eq!(handler(&cache, &mut index, &request), Step::Miss);
}

fn hosts(config: &Config) -> Vec<Vec<u8>> {
    config.endpoints.iter().map(|e| e.0.clone()).collect()
}

fn three_endpoints() -> Config {
    let mut config = Config::default();
    config.endpoints = vec![
        (b"a.example".to_vec(), b"http://127.0.0.1:1".to_vec()),
        (b"b.example".to_vec(), b"http://127.0.0.1:2".to_vec()),
        (b"a.example".to_vec(), b"http://127.0.0.1:3".to_vec()),
    ];
    config
}

#[test]
fn delete_endpoint_removes_the_first_match() {
    let mut config = three_endpoints();
    assert_eq!(delete_endpoint(&mut config, b"a.example"), 200);
    assert_eq!(
        config.endpoints,
        vec![
            (b"b.example".to_vec(), b"http://127.0.0.1:2".to_vec()),
            (b"a.example".to_vec(), b"http://127.0.0.1:3".to_vec()),
        ]
    );
    assert_eq!(delete_endpoint(&mut config, b"a.example"), 200);
    assert_eq!(delete_endpoint(&mut config, b"a.example"), 404);
    assert_eq!(hosts(&config), vec![b"b.example".to_vec()]);
}

#[test]
fn delete_endpoint_of_unknown_host_is_404() {
    let mut config = three_endpoints();
    assert_eq!(delete_endpoint(&mut config, b"c.example"), 404);
    assert_eq!(delete_endpoint(&mut config, b"A.example"), 404);
    assert_eq!(config, three_endpoints());
}

#[test]
fn put_on_an_endpoint_takes_it_out_of_the_table() {
    let mut config = three_endpoints();
    assert_eq!(add_endpoint(&mut config, b"b.example"), 200);
    assert_eq!(hosts(&config), vec![b"a.example".to_vec(), b"a.example".to_vec()]);
    assert_eq!(add_endpoint(&mut config, b"b.example"), 404);
    assert_eq!(add_endpoint(&mut config, b"new.example"), 404);
    assert_eq!(hosts(&config), vec![b"a.example".to_vec(), b"a.example".to_vec()]);
}

#[test]
fn delete_endpoints_empties_the_table() {
    let mut config = three_endpoints();
    assert_eq!(delete_endpoints(&mut config), 200);
    assert!(config.endpoints.is_empty());
    assert_eq!(config.fall_back_endpoint, Config::default().fall_back_endpoint);
    assert_eq!(delete_endpoints(&mut config), 200);
}

#[test]
fn set_fallback_replaces_the_url_in_normal_form() {
    let mut config = three_endpoints();
    assert_eq!(set_fallback_value(&mut config, b"http://127.0.0.1:2000"), 404);
    assert_eq!(config.fall_back_endpoint, b"http://127.0.0.1:2000/".to_vec());
    assert_eq!(get_fallback_value(&config), (404, b"http://127.0.0.1:2000/".to_vec()));
    assert_eq!(config.endpoints, three_endpoints().endpoints);
}

#[test]
fn set_fallback_ignores_what_is_no_url() {
    let mut config = Config::default();
    assert_eq!(set_fallback_value(&mut config, b"not a url"), 404);
    assert_eq!(set_fallback_value(&mut config, b""), 404);
    assert_eq!(config, Config::default());
    assert_eq!(get_fallback_value(&config), (404, b"http://127.0.0.1:1000".to_vec()));
}
