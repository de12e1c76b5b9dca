//! The configuration: the virtual hosts with their backends, the fallback
//! backend, the listen address and the limits of the cache.

use crate::backend::{collapse_slashes, collapse_url, parse_url, url_parse};
use crate::text::{bytes_equal, is_text, is_visible_text};
use vstd::prelude::*;
use vstd::string::StrSliceExecFns;
use vstd::string::StringSliceAdditionalSpecFns;

verus! {

/// The limits of the cache.
#[derive(Clone, Copy, Debug, PartialEq, Eq)]
pub struct CacheConfig {
    /// Seconds after its last read at which an entry expires.
    pub expiration: u64,
    /// The most memory that the cache may take, in MiB.
    pub size_limit: u64,
}

impl Default for CacheConfig {
    /// About a month of idle time, and 250 MiB.
    fn default() -> (r: Self)
        ensures
            r.expiration == 2592000,
            r.size_limit == 250,
    {
        CacheConfig { expiration: 2592000, size_limit: 250 }
    }
}

/// The configuration of the proxy. Addresses and URLs are held as text.
#[derive(Clone, Debug, PartialEq, Eq)]
pub struct Config {
    /// The socket address on which the proxy listens.
    pub listen_address: Vec<u8>,
    /// The virtual hosts: each host name with the base URL of its backend.
    pub endpoints: Vec<(Vec<u8>, Vec<u8>)>,
    /// The base URL used for requests to no known host.
    pub fall_back_endpoint: Vec<u8>,
    /// The limits of the cache.
    pub cache: CacheConfig,
}

/// What a configuration is to the contracts.
pub struct ConfigView {
    pub listen_address: Seq<u8>,
    pub endpoints: Seq<(Seq<u8>, Seq<u8>)>,
    pub fall_back_endpoint: Seq<u8>,
    pub cache: CacheConfig,
}

/// The endpoint table as pairs of byte strings.
pub open spec fn endpoints_model(endpoints: Seq<(Vec<u8>, Vec<u8>)>) -> Seq<(Seq<u8>, Seq<u8>)> {
    endpoints.map_values(|e: (Vec<u8>, Vec<u8>)| (e.0@, e.1@))
}

impl View for Config {
    type V = ConfigView;

    open spec fn view(&self) -> ConfigView {
        ConfigView {
            listen_address: self.listen_address@,
            endpoints: endpoints_model(self.endpoints@),
            fall_back_endpoint: self.fall_back_endpoint@,
            cache: self.cache,
        }
    }
}

/// The address on which the proxy listens unless told otherwise.
pub open spec fn default_listen_address() -> Seq<u8> {
    "127.0.0.1:9830".spec_bytes()
}

/// The fallback backend unless told otherwise.
pub open spec fn default_fall_back() -> Seq<u8> {
    "http://127.0.0.1:1000".spec_bytes()
}

impl Default for Config {
    fn default() -> (r: Self)
        ensures
            r@.listen_address == default_listen_address(),
            r@.endpoints.len() == 0,
            r@.fall_back_endpoint == default_fall_back(),
            r@.cache.expiration == 2592000,
            r@.cache.size_limit == 250,
    {
        Config {
            listen_address: "127.0.0.1:9830".as_bytes_vec(),
            endpoints: Vec::new(),
            fall_back_endpoint: "http://127.0.0.1:1000".as_bytes_vec(),
            cache: CacheConfig { expiration: 2592000, size_limit: 250 },
        }
    }
}

/// The index of the first endpoint whose host is exactly `host`.
pub open spec fn endpoint_index(endpoints: Seq<(Seq<u8>, Seq<u8>)>, host: Seq<u8>) -> Option<int>
    decreases endpoints.len(),
{
    if endpoints.len() == 0 {
        None
    } else if endpoints[0].0 == host {
        Some(0)
    } else {
        match endpoint_index(endpoints.skip(1), host) {
            Some(i) => Some(i + 1),
            None => None,
        }
    }
}

/// The base URL that serves a request: that of the first endpoint whose
/// host is byte-equal to the request's `Host` header, where the request has
/// one that reads as text and some endpoint matches; the fallback otherwise.
pub open spec fn base_for(config: ConfigView, host: Option<Seq<u8>>) -> Seq<u8> {
    match host {
        Some(h) => if is_text(h) {
            match endpoint_index(config.endpoints, h) {
                Some(i) => config.endpoints[i].1,
                None => config.fall_back_endpoint,
            }
        } else {
            config.fall_back_endpoint
        },
        None => config.fall_back_endpoint,
    }
}

/// The text of the backend URL of a request: base and request target
/// joined, with doubled slashes collapsed.
pub open spec fn backend_text(config: ConfigView, target: Seq<u8>, host: Option<Seq<u8>>) -> Seq<
    u8,
> {
    collapse_url(base_for(config, host) + target)
}

/// The view of an optional byte string.
pub open spec fn opt_view(bytes: Option<&Vec<u8>>) -> Option<Seq<u8>> {
    match bytes {
        Some(b) => Some(b@),
        None => None,
    }
}

impl Config {
    /// Finds the endpoint of a host.
    pub fn find_endpoint(&self, host: &[u8]) -> (r: Option<usize>)
        ensures
            match r {
                Some(i) => endpoint_index(self@.endpoints, host@) == Some(i as int) && i
                    < self.endpoints.len(),
                None => endpoint_index(self@.endpoints, host@) is None,
            },
    {
        let ghost all = self@.endpoints;
        let mut i: usize = 0;
        assert(all.skip(0) =~= all);
        while i < self.endpoints.len()
            invariant
                i <= self.endpoints.len(),
                all == self@.endpoints,
                endpoint_index(all, host@) == match endpoint_index(all.skip(i as int), host@) {
                    Some(j) => Some(j + i),
                    None => None,
                },
            decreases self.endpoints.len() - i,
        {
            assert(all.skip(i as int)[0] == all[i as int]);
            assert(all[i as int].0 == self.endpoints@[i as int].0@);
            if bytes_equal(self.endpoints[i].0.as_slice(), host) {
                return Some(i);
            }
            assert(all.skip(i as int).skip(1) =~= all.skip(i + 1));
            i += 1;
        }
        None
    }

    /// Writes the backend URL of a request as text: the base of the
    /// request's host, or the fallback, followed by the request target,
    /// with doubled slashes collapsed.
    pub fn backend_url_text(&self, uri_req: &Vec<u8>, host: Option<&Vec<u8>>) -> (text: Vec<u8>)
        ensures
            text@ == backend_text(self@, uri_req@, opt_view(host)),
    {
        let mut base: &Vec<u8> = &self.fall_back_endpoint;
        if let Some(h) = host {
            if is_visible_text(h.as_slice()) {
                if let Some(i) = self.find_endpoint(h.as_slice()) {
                    assert(self@.endpoints[i as int].1 == self.endpoints@[i as int].1@);
                    base = &self.endpoints[i].1;
                }
            }
        }
        assert(base@ == base_for(self@, opt_view(host)));
        let mut joined: Vec<u8> = Vec::new();
        let mut i: usize = 0;
        while i < base.len()
            invariant
                i <= base.len(),
                joined@ == base@.take(i as int),
            decreases base.len() - i,
        {
            joined.push(base[i]);
            assert(base@.take(i + 1) =~= base@.take(i as int).push(base@[i as int]));
            i += 1;
        }
        assert(base@.take(base.len() as int) =~= base@);
        let mut j: usize = 0;
        while j < uri_req.len()
            invariant
                j <= uri_req.len(),
                joined@ == base@ + uri_req@.take(j as int),
            decreases uri_req.len() - j,
        {
            joined.push(uri_req[j]);
            assert(base@ + uri_req@.take(j + 1) =~= (base@ + uri_req@.take(j as int)).push(
                uri_req@[j as int],
            ));
            j += 1;
        }
        assert(uri_req@.take(uri_req.len() as int) =~= uri_req@);
        collapse_slashes(joined.as_slice())
    }

    /// Resolves the backend URL of a request from its target and its `Host`
    /// header: the text that `backend_url_text` writes, as the URL parser
    /// reads it. Nothing comes back where that text is no URL.
    pub fn to_backend_uri(&self, uri_req: &Vec<u8>, host: Option<&Vec<u8>>) -> (r: Option<Vec<u8>>)
        ensures
            match r {
                Some(url) => url_parse(backend_text(self@, uri_req@, opt_view(host))) == Some(url@),
                None => url_parse(backend_text(self@, uri_req@, opt_view(host))) is None,
            },
    {
        let text = self.backend_url_text(uri_req, host);
        parse_url(text.as_slice())
    }
}

} // verus!
