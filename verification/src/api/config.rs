//! The administrative operations on the configuration: the endpoint table
//! and the fallback backend.

use crate::api::{NOT_FOUND, OK};
use crate::backend::{parse_url, url_parse};
use crate::config::{endpoint_index, endpoints_model, Config};
use crate::text::copy_bytes;
use vstd::prelude::*;

verus! {

/// Removes the endpoint of a host from the table: the first entry whose
/// host is exactly `path`. The status is `200` if there was one, `404` if
/// not.
pub fn delete_endpoint(config: &mut Config, path: &[u8]) -> (status: u16)
    ensures
        final(config)@.listen_address == old(config)@.listen_address,
        final(config)@.fall_back_endpoint == old(config)@.fall_back_endpoint,
        final(config)@.cache == old(config)@.cache,
        match endpoint_index(old(config)@.endpoints, path@) {
            Some(i) => status == OK && final(config)@.endpoints == old(config)@.endpoints.remove(i),
            None => status == NOT_FOUND && final(config)@.endpoints == old(config)@.endpoints,
        },
{
    match config.find_endpoint(path) {
        Some(i) => {
            let ghost before = config.endpoints@;
            config.endpoints.remove(i);
            assert(endpoints_model(config.endpoints@) =~= endpoints_model(before).remove(i as int));
            OK
        },
        None => NOT_FOUND,
    }
}

/// Answers a `PUT` on an endpoint. The request names a host and nothing
/// else, so there is no backend to register: the endpoint of the host is
/// taken out of the table, as `delete_endpoint` does, and the status says
/// whether there was one.
pub fn add_endpoint(config: &mut Config, path: &[u8]) -> (status: u16)
    ensures
        final(config)@.listen_address == old(config)@.listen_address,
        final(config)@.fall_back_endpoint == old(config)@.fall_back_endpoint,
        final(config)@.cache == old(config)@.cache,
        match endpoint_index(old(config)@.endpoints, path@) {
            Some(i) => status == OK && final(config)@.endpoints == old(config)@.endpoints.remove(i),
            None => status == NOT_FOUND && final(config)@.endpoints == old(config)@.endpoints,
        },
{
    delete_endpoint(config, path)
}

/// Replaces the fallback backend by the URL in `body`, in its normal form,
/// where `body` is a URL; leaves it alone where it is none. The status is
/// `404` either way.
pub fn set_fallback_value(config: &mut Config, body: &[u8]) -> (status: u16)
    ensures
        status == NOT_FOUND,
        final(config)@.listen_address == old(config)@.listen_address,
        final(config)@.endpoints == old(config)@.endpoints,
        final(config)@.cache == old(config)@.cache,
        match url_parse(body@) {
            Some(url) => final(config)@.fall_back_endpoint == url,
            None => final(config)@.fall_back_endpoint == old(config)@.fall_back_endpoint,
        },
{
    match parse_url(body) {
        Some(url) => {
            config.fall_back_endpoint = url;
        },
        None => {},
    }
    NOT_FOUND
}

/// Reads the fallback backend. The status that goes with it is `404`.
pub fn get_fallback_value(config: &Config) -> (r: (u16, Vec<u8>))
    ensures
        r.0 == NOT_FOUND,
        r.1@ == config@.fall_back_endpoint,
{
    (NOT_FOUND, copy_bytes(config.fall_back_endpoint.as_slice()))
}

/// Empties the endpoint table.
pub fn delete_endpoints(config: &mut Config) -> (status: u16)
    ensures
        status == OK,
        final(config)@.endpoints.len() == 0,
        final(config)@.listen_address == old(config)@.listen_address,
        final(config)@.fall_back_endpoint == old(config)@.fall_back_endpoint,
        final(config)@.cache == old(config)@.cache,
{
    config.endpoints = Vec::new();
    OK
}

} // verus!
