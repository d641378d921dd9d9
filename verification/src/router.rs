//! [Router] in client

use vstd::prelude::*;
use dashmap::DashMap;
use crate::cache::{
    no_routes, route_cache_contents, route_cache_get, route_cache_insert, route_cache_new,
    route_cache_remove,
};
use crate::errors::Error;
use crate::model::route::{
    endpoint_views, names, route_views, Endpoint, EndpointView, Route, RouteView,
};

verus! {

/// For each table its cached endpoint, or none where the cache has no entry.
pub open spec fn cached_endpoints(
    cache: Map<Seq<char>, EndpointView>,
    tables: Seq<Seq<char>>,
) -> Seq<Option<EndpointView>> {
    tables.map_values(
        |t: Seq<char>|
            if cache.contains_key(t) {
                Some(cache[t])
            } else {
                None
            },
    )
}

/// The tables that the cache has no entry for, each once, in the order in
/// which they first occur.
pub open spec fn misses(cache: Map<Seq<char>, EndpointView>, tables: Seq<Seq<char>>) -> Seq<
    Seq<char>,
>
    decreases tables.len(),
{
    if tables.len() == 0 {
        Seq::empty()
    } else {
        let before = misses(cache, tables.drop_last());
        let table = tables.last();
        if cache.contains_key(table) || before.contains(table) {
            before
        } else {
            before.push(table)
        }
    }
}

/// The endpoint that a response gives for a table: that of its last route
/// for the table that names an endpoint.
pub open spec fn resolved_endpoint(routes: Seq<RouteView>, table: Seq<char>) -> Option<
    EndpointView,
>
    decreases routes.len(),
{
    if routes.len() == 0 {
        None
    } else if routes.last().table == table && routes.last().endpoint is Some {
        routes.last().endpoint
    } else {
        resolved_endpoint(routes.drop_last(), table)
    }
}

/// The first table for which a response names an endpoint although it was
/// not asked for.
pub open spec fn stray_table(asked: Seq<Seq<char>>, routes: Seq<RouteView>) -> Option<Seq<char>>
    decreases routes.len(),
{
    if routes.len() == 0 {
        None
    } else if routes[0].endpoint is Some && !asked.contains(routes[0].table) {
        Some(routes[0].table)
    } else {
        stray_table(asked, routes.skip(1))
    }
}

/// The cache after a response: each table for which the response names an
/// endpoint is mapped to it, every other entry is kept.
pub open spec fn learned(cache: Map<Seq<char>, EndpointView>, routes: Seq<RouteView>) -> Map<
    Seq<char>,
    EndpointView,
> {
    Map::new(
        |t: Seq<char>| cache.contains_key(t) || resolved_endpoint(routes, t) is Some,
        |t: Seq<char>|
            match resolved_endpoint(routes, t) {
                Some(e) => e,
                None => cache[t],
            },
    )
}

/// The endpoint of each table once the response is in: what the cache held
/// when it was looked up; for a miss, what the response gives; and where it
/// gives nothing, the default endpoint.
pub open spec fn answers(
    tables: Seq<Seq<char>>,
    cached: Seq<Option<EndpointView>>,
    routes: Seq<RouteView>,
    default_endpoint: EndpointView,
) -> Seq<Option<EndpointView>> {
    Seq::new(
        tables.len(),
        |i: int|
            Some(
                match cached[i] {
                    Some(e) => e,
                    None => match resolved_endpoint(routes, tables[i]) {
                        Some(e) => e,
                        None => default_endpoint,
                    },
                },
            ),
    )
}

/// The message of the error for a response that names `table` unasked.
pub open spec fn unknown_table_message(table: Seq<char>) -> Seq<char> {
    "Unknown table:"@ + table + " in response"@
}

/// A cache without the entries of the given tables.
pub open spec fn evicted(cache: Map<Seq<char>, EndpointView>, tables: Seq<Seq<char>>) -> Map<
    Seq<char>,
    EndpointView,
> {
    Map::new(|t: Seq<char>| cache.contains_key(t) && !tables.contains(t), |t: Seq<char>| cache[t])
}

/// A lookup asks the default endpoint for nothing exactly when every table
/// is cached; what it asks for is never cached.
pub proof fn lemma_misses_are_uncached(cache: Map<Seq<char>, EndpointView>, tables: Seq<Seq<char>>)
    ensures
        misses(cache, tables).len() == 0 <==> forall|i: int|
            0 <= i < tables.len() ==> cache.contains_key(#[trigger] tables[i]),
        forall|t: Seq<char>| #[trigger]
            misses(cache, tables).contains(t) <==> tables.contains(t) && !cache.contains_key(t),
    decreases tables.len(),
{
    if tables.len() > 0 {
        let head = tables.drop_last();
        let last = tables.last();
        lemma_misses_are_uncached(cache, head);
        let before = misses(cache, head);
        let now = misses(cache, tables);
        assert(tables[tables.len() - 1] == last);
        assert forall|t: Seq<char>| #[trigger]
            now.contains(t) <==> tables.contains(t) && !cache.contains_key(t) by {
            let in_head = head.contains(t);
            if in_head {
                let j = choose|j: int| 0 <= j < head.len() && head[j] == t;
                assert(tables[j] == t);
            }
            if tables.contains(t) && t != last {
                let j = choose|j: int| 0 <= j < tables.len() && tables[j] == t;
                assert(head[j] == t);
            }
            assert(tables.contains(t) <==> in_head || t == last);
            if now.contains(t) {
                let j = choose|j: int| 0 <= j < now.len() && now[j] == t;
                if j < before.len() {
                    assert(before[j] == t);
                    assert(before.contains(t));
                }
            }
            if before.contains(t) {
                let j = choose|j: int| 0 <= j < before.len() && before[j] == t;
                assert(now[j] == t);
            }
            if t == last && !cache.contains_key(t) && !before.contains(t) {
                assert(now[before.len() as int] == t);
            }
        }
        if misses(cache, tables).len() == 0 {
            assert forall|i: int| 0 <= i < tables.len() implies cache.contains_key(
                #[trigger] tables[i],
            ) by {
                if i < head.len() {
                    assert(head[i] == tables[i]);
                } else if !cache.contains_key(last) {
                    assert(before.contains(last));
                }
            }
        } else if forall|i: int| 0 <= i < tables.len() ==> cache.contains_key(#[trigger] tables[i]) {
            assert forall|i: int| 0 <= i < head.len() implies cache.contains_key(
                #[trigger] head[i],
            ) by {
                assert(head[i] == tables[i]);
            }
            assert(cache.contains_key(tables[tables.len() - 1]));
        }
    }
}

/// Once a response has named an endpoint for a table, the table is cached
/// with that endpoint: a later lookup of tables that were all named or
/// cached asks the default endpoint for nothing.
pub proof fn lemma_cache_hit_avoids_network(
    cache: Map<Seq<char>, EndpointView>,
    routes: Seq<RouteView>,
    tables: Seq<Seq<char>>,
)
    requires
        forall|i: int|
            0 <= i < tables.len() ==> cache.contains_key(#[trigger] tables[i]) || resolved_endpoint(
                routes,
                tables[i],
            ) is Some,
    ensures
        misses(learned(cache, routes), tables).len() == 0,
        forall|i: int|
            0 <= i < tables.len() && resolved_endpoint(routes, #[trigger] tables[i]) is Some
                ==> cached_endpoints(learned(cache, routes), tables)[i] == resolved_endpoint(
                routes,
                tables[i],
            ),
{
    let after = learned(cache, routes);
    assert forall|i: int| 0 <= i < tables.len() implies after.contains_key(
        #[trigger] tables[i],
    ) by {}
    lemma_misses_are_uncached(after, tables);
}

/// After the eviction of a table, a lookup of it asks the default endpoint
/// for it, once, whether or not it was cached before.
pub proof fn lemma_eviction_forces_refresh(
    cache: Map<Seq<char>, EndpointView>,
    gone: Seq<Seq<char>>,
    table: Seq<char>,
)
    requires
        gone.contains(table),
    ensures
        misses(evicted(cache, gone), seq![table]) == seq![table],
{
    let only = seq![table];
    assert(only.drop_last() == Seq::<Seq<char>>::empty());
    assert(misses(evicted(cache, gone), only.drop_last()) == Seq::<Seq<char>>::empty());
    assert(only.last() == table);
}

/// The cache after several responses, one after the other.
pub open spec fn learned_all(
    cache: Map<Seq<char>, EndpointView>,
    responses: Seq<Seq<RouteView>>,
) -> Map<Seq<char>, EndpointView>
    decreases responses.len(),
{
    if responses.len() == 0 {
        cache
    } else {
        learned(learned_all(cache, responses.drop_last()), responses.last())
    }
}

/// Lookups of one uncached table that race each other all find it missing,
/// and each asks the default endpoint once. In whatever order their
/// responses arrive, the cache ends with one entry for the table: the
/// endpoint that the response that arrived last names. Where all responses
/// name the same endpoint, that is the entry.
pub proof fn lemma_racing_lookups_converge(
    cache: Map<Seq<char>, EndpointView>,
    table: Seq<char>,
    responses: Seq<Seq<RouteView>>,
)
    requires
        !cache.contains_key(table),
        responses.len() > 0,
        forall|k: int|
            0 <= k < responses.len() ==> resolved_endpoint(#[trigger] responses[k], table)
                is Some,
    ensures
        misses(cache, seq![table]) == seq![table],
        learned_all(cache, responses).contains_key(table),
        Some(learned_all(cache, responses)[table]) == resolved_endpoint(responses.last(), table),
        (forall|k: int|
            0 <= k < responses.len() ==> resolved_endpoint(#[trigger] responses[k], table)
                == resolved_endpoint(responses[0], table)) ==> Some(
            learned_all(cache, responses)[table],
        ) == resolved_endpoint(responses[0], table),
{
    let only = seq![table];
    assert(only.drop_last() == Seq::<Seq<char>>::empty());
    assert(misses(cache, only.drop_last()) == Seq::<Seq<char>>::empty());
    assert(only.last() == table);
    assert(responses[responses.len() - 1] == responses.last());
}

/// A lookup that found tables missing: it is completed by
/// [`RouterImpl::route_resolved`] with what the default endpoint answers to
/// [`RoutePending::request`].
pub struct RoutePending {
    tables: Vec<String>,
    cached: Vec<Option<Endpoint>>,
    request: Vec<String>,
}

impl RoutePending {
    #[verifier::type_invariant]
    spec fn wf(self) -> bool {
        self.tables@.len() == self.cached@.len()
    }

    /// The tables that were looked up.
    pub closed spec fn tables(self) -> Seq<String> {
        self.tables@
    }

    /// What the cache held for each of them.
    pub closed spec fn cached(self) -> Seq<Option<EndpointView>> {
        endpoint_views(self.cached@)
    }

    /// The tables to ask the default endpoint for.
    pub closed spec fn asked(self) -> Seq<Seq<char>> {
        names(self.request@)
    }

    /// The tables to ask the default endpoint for.
    pub fn request(&self) -> (r: &Vec<String>)
        ensures
            names(r@) == self.asked(),
    {
        &self.request
    }

    /// The tables that were looked up.
    pub fn looked_up(&self) -> (r: &Vec<String>)
        ensures
            r@ == self.tables(),
            r@.len() == self.cached().len(),
    {
        proof {
            use_type_invariant(self);
        }
        &self.tables
    }
}

/// How a lookup ends: `after` is the cache and `result` the outcome once
/// `response` has come in for `pending`, where `before` was the cache and
/// `default_endpoint` the endpoint that was asked.
pub open spec fn routed(
    before: Map<Seq<char>, EndpointView>,
    default_endpoint: EndpointView,
    pending: RoutePending,
    response: Result<Vec<Route>, Error>,
    after: Map<Seq<char>, EndpointView>,
    result: Result<Vec<Option<Endpoint>>, Error>,
) -> bool {
    match response {
        Err(failure) => {
            &&& result matches Err(e)
            &&& e == failure
            &&& after == before
        },
        Ok(routes) => match result {
            Ok(endpoints) => {
                &&& stray_table(pending.asked(), route_views(routes@)) is None
                &&& after == learned(before, route_views(routes@))
                &&& endpoint_views(endpoints@) == answers(
                    names(pending.tables()),
                    pending.cached(),
                    route_views(routes@),
                    default_endpoint,
                )
            },
            Err(e) => {
                &&& stray_table(pending.asked(), route_views(routes@)) matches Some(table)
                &&& e matches Error::Unknown(msg)
                &&& msg@ == unknown_table_message(table)
                &&& after == before
            },
        },
    }
}

/// What a lookup of tables has come to.
pub enum RouteStep {
    /// Every table was cached: these are the endpoints, one for each table.
    Done(Vec<Option<Endpoint>>),
    /// Some tables are not cached: the default endpoint has to be asked.
    Resolve(RoutePending),
}

/// Used to route tables to endpoints.
///
/// There is a cache in [`RouterImpl`], it will return endpoints in cache
/// first. If returned endpoints are outdated, you should call [`evict`] to
/// remove them. And [`RouterImpl`] will ask for new endpoints when you call
/// [`route`] again.
///
/// [`route`]: RouterImpl::route
/// [`evict`]: RouterImpl::evict
pub struct RouterImpl {
    default_endpoint: Endpoint,
    cache: DashMap<String, Endpoint>,
}

fn contains_name(list: &Vec<String>, name: &String) -> (r: bool)
    ensures
        r == names(list@).contains(name@),
{
    let mut i: usize = 0;
    while i < list.len()
        invariant
            i <= list@.len(),
            forall|j: int| 0 <= j < i ==> names(list@)[j] != name@,
        decreases list@.len() - i,
    {
        if list[i] == *name {
            assert(names(list@)[i as int] == name@);
            return true;
        }
        i += 1;
    }
    false
}

/// The endpoint of the last route for `table` that names one.
fn find_resolved(routes: &Vec<Route>, table: &String) -> (r: Option<Endpoint>)
    ensures
        match r {
            Some(e) => resolved_endpoint(route_views(routes@), table@) == Some(e@),
            None => resolved_endpoint(route_views(routes@), table@) is None,
        },
{
    let ghost all = route_views(routes@);
    let mut i: usize = routes.len();
    assert(all.take(i as int) == all);
    while i > 0
        invariant
            i <= routes@.len(),
            all == route_views(routes@),
            resolved_endpoint(all, table@) == resolved_endpoint(all.take(i as int), table@),
        decreases i,
    {
        assert(all.take(i as int).drop_last() == all.take(i - 1));
        assert(all.take(i as int).last() == routes@[i - 1]@);
        let route = &routes[i - 1];
        if route.table == *table {
            match &route.endpoint {
                Some(e) => {
                    return Some(e.clone());
                },
                None => {},
            }
        }
        i -= 1;
    }
    None
}

/// The first route that names an endpoint for a table that was not asked
/// for.
fn find_stray(asked: &Vec<String>, routes: &Vec<Route>) -> (r: Option<usize>)
    ensures
        match r {
            Some(i) => i < routes@.len() && stray_table(names(asked@), route_views(routes@))
                == Some(routes@[i as int].table@),
            None => stray_table(names(asked@), route_views(routes@)) is None,
        },
{
    let ghost all = route_views(routes@);
    let mut i: usize = 0;
    assert(all.skip(0) == all);
    while i < routes.len()
        invariant
            i <= routes@.len(),
            all == route_views(routes@),
            stray_table(names(asked@), all) == stray_table(names(asked@), all.skip(i as int)),
        decreases routes@.len() - i,
    {
        assert(all.skip(i as int)[0] == routes@[i as int]@);
        assert(all.skip(i as int).skip(1) == all.skip(i + 1));
        let route = &routes[i];
        if route.endpoint.is_some() && !contains_name(asked, &route.table) {
            return Some(i);
        }
        i += 1;
    }
    None
}

impl RouterImpl {
    /// The routes in the cache: for each cached table, its endpoint.
    pub closed spec fn cache(&self) -> Map<Seq<char>, EndpointView> {
        route_cache_contents(self.cache)
    }

    /// The endpoint that is asked for routes, and that serves a table for
    /// which it names no other.
    pub closed spec fn default_endpoint(&self) -> EndpointView {
        self.default_endpoint@
    }

    pub fn new(default_endpoint: Endpoint) -> (r: Self)
        ensures
            r.cache() == no_routes(),
            r.default_endpoint() == default_endpoint@,
    {
        Self { default_endpoint, cache: route_cache_new() }
    }

    /// Looks the tables up in the cache. Where all are cached, their
    /// endpoints are the result and the default endpoint need not be asked.
    /// Otherwise the tables that are missing have to be asked for, all at
    /// once.
    pub fn route(&self, tables: &[String]) -> (step: RouteStep)
        ensures
            match step {
                RouteStep::Done(endpoints) => {
                    &&& misses(self.cache(), names(tables@)).len() == 0
                    &&& endpoint_views(endpoints@) == cached_endpoints(
                        self.cache(),
                        names(tables@),
                    )
                },
                RouteStep::Resolve(pending) => {
                    &&& misses(self.cache(), names(tables@)).len() > 0
                    &&& pending.tables() == tables@
                    &&& pending.cached() == cached_endpoints(self.cache(), names(tables@))
                    &&& pending.asked() == misses(self.cache(), names(tables@))
                },
            },
    {
        let ghost all = names(tables@);
        let ghost cache = self.cache();
        let mut copies: Vec<String> = Vec::new();
        let mut cached: Vec<Option<Endpoint>> = Vec::new();
        let mut request: Vec<String> = Vec::new();
        let mut i: usize = 0;
        while i < tables.len()
            invariant
                i <= tables@.len(),
                all == names(tables@),
                all.len() == tables@.len(),
                cache == self.cache(),
                cached@.len() == i,
                copies@.len() == i,
                copies@ == tables@.take(i as int),
                endpoint_views(cached@) == cached_endpoints(cache, all.take(i as int)),
                names(request@) == misses(cache, all.take(i as int)),
            decreases tables@.len() - i,
        {
            let table = &tables[i];
            proof {
                assert(all.take(i + 1).drop_last() == all.take(i as int));
                assert(all.take(i + 1).last() == table@);
            }
            let found = route_cache_get(&self.cache, table);
            let ghost cached_before = endpoint_views(cached@);
            if found.is_none() && !contains_name(&request, table) {
                request.push(table.clone());
                assert(names(request@) == misses(cache, all.take(i as int)).push(table@));
            }
            cached.push(found);
            copies.push(table.clone());
            proof {
                assert(copies@ == tables@.take(i + 1));
                let now = endpoint_views(cached@);
                let want = cached_endpoints(cache, all.take(i + 1));
                assert(now.len() == want.len());
                assert forall|j: int| 0 <= j < now.len() implies now[j] == want[j] by {
                    if j < i {
                        assert(now[j] == cached_before[j]);
                        assert(all.take(i + 1)[j] == all.take(i as int)[j]);
                        assert(cached_before[j] == cached_endpoints(cache, all.take(i as int))[j]);
                    }
                }
                assert(now == want);
            }
            i += 1;
        }
        assert(all.take(i as int) == all);
        assert(tables@.take(i as int) == tables@);
        if request.len() == 0 {
            RouteStep::Done(cached)
        } else {
            RouteStep::Resolve(RoutePending { tables: copies, cached, request })
        }
    }

    /// Completes a lookup with what the default endpoint answered.
    ///
    /// Where asking it failed, the lookup fails with the same error and the
    /// cache stays as it was. A response that names an endpoint for a table
    /// that was not asked for is refused, and the cache stays as it was too.
    /// Otherwise the cache learns every endpoint that the response names,
    /// and each table gets its endpoint: what the cache held for it, else
    /// what the response names, else the default endpoint.
    pub fn route_resolved(
        &mut self,
        pending: RoutePending,
        response: Result<Vec<Route>, Error>,
    ) -> (r: Result<Vec<Option<Endpoint>>, Error>)
        ensures
            final(self).default_endpoint() == old(self).default_endpoint(),
            routed(
                old(self).cache(),
                old(self).default_endpoint(),
                pending,
                response,
                final(self).cache(),
                r,
            ),
    {
        match response {
            Err(e) => Err(e),
            Ok(routes) => self.learn(pending, routes),
        }
    }

    fn learn(&mut self, pending: RoutePending, routes: Vec<Route>) -> (r: Result<
        Vec<Option<Endpoint>>,
        Error,
    >)
        ensures
            final(self).default_endpoint() == old(self).default_endpoint(),
            routed(
                old(self).cache(),
                old(self).default_endpoint(),
                pending,
                Ok(routes),
                final(self).cache(),
                r,
            ),
    {
        proof {
            use_type_invariant(&pending);
        }
        match find_stray(&pending.request, &routes) {
            Some(i) => {
                let mut msg = String::from_str("Unknown table:");
                msg.append(routes[i].table.as_str());
                msg.append(" in response");
                return Err(Error::Unknown(msg));
            },
            None => {},
        }
        let ghost all = route_views(routes@);
        let ghost before = self.cache();

        // Update the cache.
        let mut k: usize = 0;
        assert(self.cache() =~= learned(before, all.take(0)));
        while k < routes.len()
            invariant
                k <= routes@.len(),
                all == route_views(routes@),
                self.default_endpoint() == old(self).default_endpoint(),
                self.cache() == learned(before, all.take(k as int)),
            decreases routes@.len() - k,
        {
            proof {
                assert(all.take(k + 1).drop_last() == all.take(k as int));
                assert(all.take(k + 1).last() == routes@[k as int]@);
            }
            let route = &routes[k];
            match &route.endpoint {
                Some(endpoint) => {
                    route_cache_insert(&mut self.cache, route.table.clone(), endpoint.clone());
                },
                None => {},
            }
            assert(self.cache() =~= learned(before, all.take(k + 1)));
            k += 1;
        }
        assert(all.take(k as int) == all);

        // Fill the endpoints of the tables.
        let ghost expected = answers(
            names(pending.tables()),
            pending.cached(),
            all,
            self.default_endpoint(),
        );
        let mut endpoints: Vec<Option<Endpoint>> = Vec::new();
        let mut i: usize = 0;
        while i < pending.tables.len()
            invariant
                i <= pending.tables@.len(),
                pending.tables@.len() == pending.cached@.len(),
                all == route_views(routes@),
                expected == answers(
                    names(pending.tables()),
                    pending.cached(),
                    all,
                    self.default_endpoint(),
                ),
                endpoints@.len() == i,
                endpoint_views(endpoints@) == expected.take(i as int),
            decreases pending.tables@.len() - i,
        {
            let endpoint = match &pending.cached[i] {
                Some(e) => e.clone(),
                None => match find_resolved(&routes, &pending.tables[i]) {
                    Some(e) => e,
                    None => self.default_endpoint.clone(),
                },
            };
            assert(endpoint@ == expected[i as int]->0);
            endpoints.push(Some(endpoint));
            assert(endpoint_views(endpoints@) == expected.take(i + 1));
            i += 1;
        }
        assert(expected.take(i as int) == expected);
        Ok(endpoints)
    }

    /// Removes the tables from the cache.
    pub fn evict(&mut self, tables: &[String])
        ensures
            final(self).cache() == evicted(old(self).cache(), names(tables@)),
            final(self).default_endpoint() == old(self).default_endpoint(),
    {
        let ghost all = names(tables@);
        let ghost before = self.cache();
        let mut i: usize = 0;
        assert(self.cache() =~= evicted(before, all.take(0)));
        while i < tables.len()
            invariant
                i <= tables@.len(),
                all == names(tables@),
                self.default_endpoint() == old(self).default_endpoint(),
                self.cache() == evicted(before, all.take(i as int)),
            decreases tables@.len() - i,
        {
            route_cache_remove(&mut self.cache, &tables[i]);
            proof {
                let gone = tables@[i as int]@;
                assert(all.take(i + 1) == all.take(i as int).push(gone));
                assert forall|t: Seq<char>|
                    all.take(i + 1).contains(t) <==> all.take(i as int).contains(t) || t
                        == gone by {
                    if all.take(i as int).contains(t) {
                        let j = choose|j: int|
                            0 <= j < all.take(i as int).len() && all.take(i as int)[j] == t;
                        assert(all.take(i + 1)[j] == t);
                    }
                    if t == gone {
                        assert(all.take(i + 1)[i as int] == t);
                    }
                }
                assert(self.cache() =~= evicted(before, all.take(i + 1)));
            }
            i += 1;
        }
        assert(all.take(i as int) == all);
    }
}

} // verus!
