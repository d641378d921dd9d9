//! The concurrent maps that the client keeps.
//!
//! A `DashMap` changes behind a shared reference. The functions here take it
//! by `&mut` wherever they change it: with the map held exclusively, what it
//! holds is a function of its value, and a contract can relate the map before
//! a call to the map after it.

use vstd::prelude::*;
use dashmap::DashMap;
use crate::model::route::{Endpoint, EndpointView, Route, RouteView};

verus! {

/// `dashmap::DashMap`, the concurrent hash map. Nothing inside it is seen:
/// what a map holds has a name, below, for each kind of map that the client
/// keeps.
#[verifier::external_type_specification]
#[verifier::external_body]
#[verifier::reject_recursive_types(K)]
#[verifier::reject_recursive_types(V)]
#[verifier::reject_recursive_types(S)]
pub struct ExDashMap<K, V, S>(DashMap<K, V, S>);

/// The routes that a cache holds: for each table in it, its endpoint.
pub uninterp spec fn route_cache_contents(cache: DashMap<String, Endpoint>) -> Map<
    Seq<char>,
    EndpointView,
>;

/// The cache that holds no route.
pub open spec fn no_routes() -> Map<Seq<char>, EndpointView> {
    Map::empty()
}

/// `DashMap::new`: a map without entries.
#[verifier::external_body]
pub(crate) fn route_cache_new() -> (cache: DashMap<String, Endpoint>)
    ensures
        route_cache_contents(cache) == no_routes(),
{
    DashMap::new()
}

/// `DashMap::get`: the entry of the key, if the map has one. The endpoint is
/// handed out as a copy.
#[verifier::external_body]
pub(crate) fn route_cache_get(cache: &DashMap<String, Endpoint>, table: &String) -> (r: Option<
    Endpoint,
>)
    ensures
        match r {
            Some(endpoint) => route_cache_contents(*cache).contains_key(table@) && endpoint@
                == route_cache_contents(*cache)[table@],
            None => !route_cache_contents(*cache).contains_key(table@),
        },
{
    cache.get(table).map(|pair| pair.value().clone())
}

/// `DashMap::insert`: the map then holds the value under the key, in place
/// of what it held there; other entries stay.
#[verifier::external_body]
pub(crate) fn route_cache_insert(
    cache: &mut DashMap<String, Endpoint>,
    table: String,
    endpoint: Endpoint,
)
    ensures
        route_cache_contents(*final(cache)) == route_cache_contents(*old(cache)).insert(
            table@,
            endpoint@,
        ),
{
    cache.insert(table, endpoint);
}

/// `DashMap::remove`: the map then has no entry under the key; other entries
/// stay.
#[verifier::external_body]
pub(crate) fn route_cache_remove(cache: &mut DashMap<String, Endpoint>, table: &String)
    ensures
        route_cache_contents(*final(cache)) == route_cache_contents(*old(cache)).remove(table@),
{
    cache.remove(table);
}

/// The clients that a pool holds: for each endpoint in it, the slot of its
/// client. Endpoints are keys by what they stand for: two of them are equal
/// exactly when address and port are, and equal ones hash alike.
pub uninterp spec fn pool_contents(pool: DashMap<Endpoint, usize>) -> Map<EndpointView, usize>;

/// The pool that holds no client.
pub open spec fn no_clients() -> Map<EndpointView, usize> {
    Map::empty()
}

/// `DashMap::new`: a map without entries.
#[verifier::external_body]
pub(crate) fn pool_new() -> (pool: DashMap<Endpoint, usize>)
    ensures
        pool_contents(pool) == no_clients(),
{
    DashMap::new()
}

/// `DashMap::get`: the entry of the key, if the map has one.
#[verifier::external_body]
pub(crate) fn pool_get(pool: &DashMap<Endpoint, usize>, endpoint: &Endpoint) -> (r: Option<usize>)
    ensures
        match r {
            Some(slot) => pool_contents(*pool).contains_key(endpoint@) && slot == pool_contents(
                *pool,
            )[endpoint@],
            None => !pool_contents(*pool).contains_key(endpoint@),
        },
{
    pool.get(endpoint).map(|pair| *pair.value())
}

/// `DashMap::entry` and `Entry::or_insert`: where the map has an entry under
/// the key, the map stays as it is and that entry's value is the result;
/// where it has none, the given value is put under the key and is the
/// result. The call returns: it does not unwind.
#[verifier::external_body]
pub(crate) fn pool_or_insert(pool: &mut DashMap<Endpoint, usize>, endpoint: Endpoint, slot: usize) -> (r:
    usize)
    ensures
        pool_contents(*old(pool)).contains_key(endpoint@) ==> pool_contents(*final(pool))
            == pool_contents(*old(pool)) && r == pool_contents(*old(pool))[endpoint@],
        !pool_contents(*old(pool)).contains_key(endpoint@) ==> pool_contents(*final(pool))
            == pool_contents(*old(pool)).insert(endpoint@, slot) && r == slot,
    no_unwind
{
    *pool.entry(endpoint).or_insert(slot).value()
}

/// `DashMap::len`: the number of entries.
#[verifier::external_body]
pub(crate) fn pool_len(pool: &DashMap<Endpoint, usize>) -> (r: usize)
    ensures
        r == pool_contents(*pool).len(),
{
    pool.len()
}

/// The routes that a cache of whole routes holds, by table.
pub uninterp spec fn route_client_contents(cache: DashMap<String, Route>) -> Map<
    Seq<char>,
    RouteView,
>;

/// The cache of whole routes that holds none.
pub open spec fn no_cached_routes() -> Map<Seq<char>, RouteView> {
    Map::empty()
}

/// `DashMap::new`: a map without entries.
#[verifier::external_body]
pub(crate) fn route_client_cache_new() -> (cache: DashMap<String, Route>)
    ensures
        route_client_contents(cache) == no_cached_routes(),
{
    DashMap::new()
}

/// `DashMap::get`: the entry of the key, if the map has one. The route is
/// handed out as a copy.
#[verifier::external_body]
pub(crate) fn route_client_cache_get(cache: &DashMap<String, Route>, table: &String) -> (r: Option<
    Route,
>)
    ensures
        match r {
            Some(route) => route_client_contents(*cache).contains_key(table@) && route@
                == route_client_contents(*cache)[table@],
            None => !route_client_contents(*cache).contains_key(table@),
        },
{
    cache.get(table).map(|pair| pair.value().clone())
}

/// `DashMap::entry` and `Entry::or_insert`: where the map has an entry under
/// the key, the map stays as it is; where it has none, the given value is
/// put under the key.
#[verifier::external_body]
pub(crate) fn route_client_cache_or_insert(
    cache: &mut DashMap<String, Route>,
    table: String,
    route: Route,
)
    ensures
        route_client_contents(*final(cache)) == if route_client_contents(
            *old(cache),
        ).contains_key(table@) {
            route_client_contents(*old(cache))
        } else {
            route_client_contents(*old(cache)).insert(table@, route@)
        },
{
    cache.entry(table).or_insert(route);
}

} // verus!
