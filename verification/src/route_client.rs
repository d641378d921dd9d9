//! The route client: a router that caches whole routes and can be told to
//! ask anew.

use vstd::prelude::*;
use dashmap::DashMap;
use crate::cache::{
    no_cached_routes, route_client_cache_get, route_client_cache_new, route_client_cache_or_insert,
    route_client_contents,
};
use crate::errors::Error;
use crate::model::route::{names, route_views, Route, RouteView};

verus! {

/// The route of a metric of which nothing is known.
pub open spec fn unknown_route() -> RouteView {
    RouteView { table: Seq::empty(), endpoint: None }
}

/// The metrics to ask for, each once, in the order in which they first
/// occur: those that are not cached, or all where the cache is passed over.
pub open spec fn metrics_to_ask(
    cache: Map<Seq<char>, RouteView>,
    metrics: Seq<Seq<char>>,
    force_refresh: bool,
) -> Seq<Seq<char>>
    decreases metrics.len(),
{
    if metrics.len() == 0 {
        Seq::empty()
    } else {
        let before = metrics_to_ask(cache, metrics.drop_last(), force_refresh);
        let metric = metrics.last();
        if (!force_refresh && cache.contains_key(metric)) || before.contains(metric) {
            before
        } else {
            before.push(metric)
        }
    }
}

/// The first metric that is not cached and occurs a second time.
pub open spec fn repeated_miss(cache: Map<Seq<char>, RouteView>, metrics: Seq<Seq<char>>) -> Option<
    Seq<char>,
>
    decreases metrics.len(),
{
    if metrics.len() == 0 {
        None
    } else {
        match repeated_miss(cache, metrics.drop_last()) {
            Some(metric) => Some(metric),
            None => if !cache.contains_key(metrics.last()) && metrics.drop_last().contains(
                metrics.last(),
            ) {
                Some(metrics.last())
            } else {
                None
            },
        }
    }
}

/// What is known of each metric before the server is asked: its cached
/// route, or nothing.
pub open spec fn routes_at_hand(
    cache: Map<Seq<char>, RouteView>,
    metrics: Seq<Seq<char>>,
    force_refresh: bool,
) -> Seq<RouteView> {
    metrics.map_values(
        |m: Seq<char>|
            if !force_refresh && cache.contains_key(m) {
                cache[m]
            } else {
                unknown_route()
            },
    )
}

/// The last place at which `metric` stands among the metrics.
pub open spec fn last_place(metrics: Seq<Seq<char>>, metric: Seq<char>) -> int
    decreases metrics.len(),
{
    if metrics.len() == 0 {
        -1
    } else if metrics.last() == metric {
        metrics.len() - 1
    } else {
        last_place(metrics.drop_last(), metric)
    }
}

/// For each metric that is asked for, the place of the result that the
/// server's route fills: the last place of the metric.
pub open spec fn places_to_fill(metrics: Seq<Seq<char>>, asked: Seq<Seq<char>>) -> Seq<int> {
    asked.map_values(|m: Seq<char>| last_place(metrics, m))
}

/// The first place at which `metric` stands among those asked for.
pub open spec fn place_asked(asked: Seq<Seq<char>>, metric: Seq<char>) -> Option<int>
    decreases asked.len(),
{
    if asked.len() == 0 {
        None
    } else {
        match place_asked(asked.drop_last(), metric) {
            Some(k) => Some(k),
            None => if asked.last() == metric {
                Some(asked.len() - 1)
            } else {
                None
            },
        }
    }
}

/// The metric of the first route of a response that was not asked for.
pub open spec fn stray_metric(asked: Seq<Seq<char>>, routes: Seq<RouteView>) -> Option<Seq<char>>
    decreases routes.len(),
{
    if routes.len() == 0 {
        None
    } else if place_asked(asked, routes[0].table) is None {
        Some(routes[0].table)
    } else {
        stray_metric(asked, routes.skip(1))
    }
}

/// The results once the routes of a response are filled in, one after the
/// other, each at the place of its metric.
pub open spec fn filled(
    at_hand: Seq<RouteView>,
    asked: Seq<Seq<char>>,
    places: Seq<int>,
    routes: Seq<RouteView>,
) -> Seq<RouteView>
    decreases routes.len(),
{
    if routes.len() == 0 {
        at_hand
    } else {
        let before = filled(at_hand, asked, places, routes.drop_last());
        match place_asked(asked, routes.last().table) {
            Some(k) => before.update(places[k], routes.last()),
            None => before,
        }
    }
}

/// The cache after a response: it keeps what it held, and takes the first
/// route of each metric that it did not hold.
pub open spec fn kept(cache: Map<Seq<char>, RouteView>, routes: Seq<RouteView>) -> Map<
    Seq<char>,
    RouteView,
>
    decreases routes.len(),
{
    if routes.len() == 0 {
        cache
    } else {
        let before = kept(cache, routes.drop_last());
        if before.contains_key(routes.last().table) {
            before
        } else {
            before.insert(routes.last().table, routes.last())
        }
    }
}

/// The text of the error for a metric that is not cached and occurs twice.
pub open spec fn duplicated_metric_message(metric: Seq<char>) -> Seq<char> {
    "Route duplicated metric:"@ + metric
}

/// The text of the error for a response that holds a metric unasked.
pub open spec fn unknown_metric_message(metric: Seq<char>) -> Seq<char> {
    "Unknown metric:"@ + metric + " in response"@
}

/// A lookup that has to ask the server: it is completed by
/// [`RouteClientImpl::route_resolved`] with what the server answers to
/// [`RouteClientPending::request`].
pub struct RouteClientPending {
    at_hand: Vec<Route>,
    request: Vec<String>,
    places: Vec<usize>,
}

impl RouteClientPending {
    #[verifier::type_invariant]
    spec fn wf(self) -> bool {
        &&& self.request@.len() == self.places@.len()
        &&& forall|k: int| 0 <= k < self.places@.len() ==> #[trigger] self.places@[k] < self.at_hand@.len()
    }

    /// What was known of each metric when the lookup began.
    pub closed spec fn at_hand(self) -> Seq<RouteView> {
        route_views(self.at_hand@)
    }

    /// The metrics to ask the server for.
    pub closed spec fn asked(self) -> Seq<Seq<char>> {
        names(self.request@)
    }

    /// For each metric asked for, the place of the result that its route
    /// fills.
    pub closed spec fn places(self) -> Seq<int> {
        self.places@.map_values(|p: usize| p as int)
    }

    /// The metrics to ask the server for.
    pub fn request(&self) -> (r: &Vec<String>)
        ensures
            names(r@) == self.asked(),
    {
        &self.request
    }
}

/// What a lookup of metrics has come to.
pub enum RouteClientStep {
    /// Nothing has to be asked: these are the routes, one for each metric.
    Done(Vec<Route>),
    /// The server has to be asked.
    Resolve(RouteClientPending),
}

/// How a lookup ends: `after` is the cache and `result` the outcome once
/// `response` has come in for `pending`, where `before` was the cache.
pub open spec fn metrics_routed(
    before: Map<Seq<char>, RouteView>,
    pending: RouteClientPending,
    response: Result<Vec<Route>, Error>,
    after: Map<Seq<char>, RouteView>,
    result: Result<Vec<Route>, Error>,
) -> bool {
    match response {
        Err(failure) => {
            &&& result matches Err(e)
            &&& e == failure
            &&& after == before
        },
        Ok(routes) => match result {
            Ok(found) => {
                &&& stray_metric(pending.asked(), route_views(routes@)) is None
                &&& after == kept(before, route_views(routes@))
                &&& route_views(found@) == filled(
                    pending.at_hand(),
                    pending.asked(),
                    pending.places(),
                    route_views(routes@),
                )
            },
            Err(e) => {
                &&& stray_metric(pending.asked(), route_views(routes@)) matches Some(metric)
                &&& e matches Error::Unknown(msg)
                &&& msg@ == unknown_metric_message(metric)
                &&& after == before
            },
        },
    }
}

/// A router that caches the routes as the server gave them. A cached route
/// stays until the end; a lookup can pass the cache over.
pub struct RouteClientImpl {
    cache: DashMap<String, Route>,
}

fn find_place(list: &Vec<String>, name: &String) -> (r: Option<usize>)
    ensures
        match r {
            Some(k) => k < list@.len() && place_asked(names(list@), name@) == Some(k as int),
            None => place_asked(names(list@), name@) is None,
        },
{
    let ghost all = names(list@);
    let mut k: usize = 0;
    while k < list.len()
        invariant
            k <= list@.len(),
            all == names(list@),
            place_asked(all.take(k as int), name@) is None,
        decreases list@.len() - k,
    {
        proof {
            assert(all.take(k + 1).drop_last() == all.take(k as int));
            assert(all.take(k + 1).last() == list@[k as int]@);
        }
        if list[k] == *name {
            proof {
                lemma_place_is_kept(all, k + 1, name@);
            }
            return Some(k);
        }
        k += 1;
    }
    assert(all.take(k as int) == all);
    None
}

/// A metric that is found among the first of those asked for is found at
/// the same place among all.
proof fn lemma_place_is_kept(asked: Seq<Seq<char>>, k: int, metric: Seq<char>)
    requires
        0 <= k <= asked.len(),
        place_asked(asked.take(k), metric) is Some,
    ensures
        place_asked(asked, metric) == place_asked(asked.take(k), metric),
    decreases asked.len() - k,
{
    if k < asked.len() {
        assert(asked.take(k + 1).drop_last() == asked.take(k));
        lemma_place_is_kept(asked, k + 1, metric);
    } else {
        assert(asked.take(k) == asked);
    }
}

/// A metric has a place among those asked for exactly when it is one of
/// them, and the place is within bounds.
proof fn lemma_place_asked(asked: Seq<Seq<char>>, metric: Seq<char>)
    ensures
        place_asked(asked, metric) is Some <==> asked.contains(metric),
        place_asked(asked, metric) matches Some(k) ==> 0 <= k < asked.len() && asked[k] == metric,
    decreases asked.len(),
{
    if asked.len() > 0 {
        let head = asked.drop_last();
        lemma_place_asked(head, metric);
        if head.contains(metric) {
            let j = choose|j: int| 0 <= j < head.len() && head[j] == metric;
            assert(asked[j] == metric);
        }
        if asked.contains(metric) && asked.last() != metric {
            let j = choose|j: int| 0 <= j < asked.len() && asked[j] == metric;
            assert(head[j] == metric);
        }
        if asked.last() == metric {
            assert(asked[asked.len() - 1] == metric);
        }
    }
}

impl RouteClientImpl {
    /// The routes in the cache, by metric.
    pub closed spec fn cache(&self) -> Map<Seq<char>, RouteView> {
        route_client_contents(self.cache)
    }

    pub fn new() -> (r: Self)
        ensures
            r.cache() == no_cached_routes(),
    {
        Self { cache: route_client_cache_new() }
    }

    /// Route metrics.
    ///
    /// we can set force_refresh for getting endpoints from server directly.
    /// Otherwise, it will get target endpoints from cache(if exist) firstly
    /// and get from server only when they not exist in local cache. There
    /// should not be duplicated metric among those that are not cached.
    pub fn route(&self, metrics: Vec<String>, force_refresh: bool) -> (r: Result<
        RouteClientStep,
        Error,
    >)
        ensures
            match r {
                Err(e) => {
                    &&& !force_refresh
                    &&& repeated_miss(self.cache(), names(metrics@)) matches Some(metric)
                    &&& e matches Error::Unknown(msg)
                    &&& msg@ == duplicated_metric_message(metric)
                },
                Ok(step) => {
                    &&& force_refresh || repeated_miss(self.cache(), names(metrics@)) is None
                    &&& match step {
                        RouteClientStep::Done(routes) => {
                            &&& metrics_to_ask(self.cache(), names(metrics@), force_refresh).len()
                                == 0
                            &&& route_views(routes@) == routes_at_hand(
                                self.cache(),
                                names(metrics@),
                                force_refresh,
                            )
                        },
                        RouteClientStep::Resolve(pending) => {
                            &&& pending.asked() == metrics_to_ask(
                                self.cache(),
                                names(metrics@),
                                force_refresh,
                            )
                            &&& pending.asked().len() > 0
                            &&& pending.at_hand() == routes_at_hand(
                                self.cache(),
                                names(metrics@),
                                force_refresh,
                            )
                            &&& pending.places() == places_to_fill(
                                names(metrics@),
                                pending.asked(),
                            )
                        },
                    }
                },
            },
    {
        let ghost all = names(metrics@);
        let ghost cache = self.cache();
        let mut at_hand: Vec<Route> = Vec::new();
        let mut request: Vec<String> = Vec::new();
        let mut places: Vec<usize> = Vec::new();
        let mut idx: usize = 0;
        while idx < metrics.len()
            invariant
                idx <= metrics@.len(),
                all == names(metrics@),
                all.len() == metrics@.len(),
                cache == self.cache(),
                at_hand@.len() == idx,
                request@.len() == places@.len(),
                route_views(at_hand@) == routes_at_hand(cache, all.take(idx as int), force_refresh),
                names(request@) == metrics_to_ask(cache, all.take(idx as int), force_refresh),
                force_refresh || repeated_miss(cache, all.take(idx as int)) is None,
                forall|k: int|
                    0 <= k < places@.len() ==> #[trigger] places@[k] == last_place(
                        all.take(idx as int),
                        request@[k]@,
                    ),
                forall|k: int| 0 <= k < places@.len() ==> 0 <= #[trigger] places@[k] < idx,
            decreases metrics@.len() - idx,
        {
            let metric = &metrics[idx];
            let ghost seen = all.take(idx as int);
            let ghost more = all.take(idx + 1);
            let ghost hand_before = route_views(at_hand@);
            let ghost asked_before = names(request@);
            proof {
                assert(more.drop_last() == seen);
                assert(more.last() == metric@);
                lemma_place_asked(asked_before, metric@);
                lemma_asked_are_among(cache, seen, force_refresh);
            }
            let cached = if force_refresh {
                None
            } else {
                route_client_cache_get(&self.cache, metric)
            };
            match cached {
                Some(route) => {
                    at_hand.push(route);
                },
                None => {
                    match find_place(&request, metric) {
                        Some(k) => {
                            if !force_refresh {
                                // There should not be duplicated metric in metrics
                                let mut msg = String::from_str("Route duplicated metric:");
                                msg.append(metric.as_str());
                                proof {
                                    lemma_repeated_miss_is_kept(cache, all, idx + 1);
                                }
                                return Err(Error::Unknown(msg));
                            }
                            places[k] = idx;
                        },
                        None => {
                            request.push(metric.clone());
                            places.push(idx);
                            assert(names(request@) == asked_before.push(metric@));
                        },
                    }
                    at_hand.push(Route { table: String::new(), endpoint: None });
                },
            }
            proof {
                let now = route_views(at_hand@);
                let want = routes_at_hand(cache, more, force_refresh);
                assert(now.len() == want.len());
                assert forall|j: int| 0 <= j < now.len() implies now[j] == want[j] by {
                    if j < idx {
                        assert(now[j] == hand_before[j]);
                        assert(more[j] == seen[j]);
                        assert(hand_before[j] == routes_at_hand(cache, seen, force_refresh)[j]);
                    }
                }
                assert(now == want);
                lemma_asked_are_among(cache, more, force_refresh);
                let asked_now = names(request@);
                assert forall|k: int| 0 <= k < places@.len() implies #[trigger] places@[k]
                    == last_place(more, request@[k]@) by {
                    assert(asked_now[k] == request@[k]@);
                    if k < asked_before.len() {
                        assert(asked_before[k] == request@[k]@);
                        assert(asked_before.contains(request@[k]@));
                    }
                    if request@[k]@ == metric@ {
                        let first = place_asked(asked_now, metric@);
                        lemma_place_asked(asked_now, metric@);
                        assert(asked_now.contains(metric@));
                        assert(first->0 == k);
                    }
                }
            }
            idx += 1;
        }
        proof {
            assert(all.take(idx as int) == all);
            assert(places@.map_values(|p: usize| p as int) =~= places_to_fill(all, names(request@)));
        }
        if request.len() == 0 {
            Ok(RouteClientStep::Done(at_hand))
        } else {
            Ok(RouteClientStep::Resolve(RouteClientPending { at_hand, request, places }))
        }
    }

    /// Completes a lookup with what the server answered.
    ///
    /// Where asking it failed, the lookup fails with the same error and the
    /// cache stays as it was. A response that holds a route for a metric
    /// that was not asked for is refused, and the cache stays as it was too.
    /// Otherwise each route is the result for its metric, and the cache
    /// takes it unless it holds a route for that metric already.
    pub fn route_resolved(
        &mut self,
        pending: RouteClientPending,
        response: Result<Vec<Route>, Error>,
    ) -> (r: Result<Vec<Route>, Error>)
        ensures
            metrics_routed(old(self).cache(), pending, response, final(self).cache(), r),
    {
        proof {
            use_type_invariant(&pending);
        }
        let routes = match response {
            Ok(routes) => routes,
            Err(e) => {
                return Err(e);
            },
        };
        let ghost all = route_views(routes@);
        let ghost asked = pending.asked();
        let ghost before = self.cache();

        // Refuse what was not asked for.
        let mut i: usize = 0;
        assert(all.skip(0) == all);
        while i < routes.len()
            invariant
                i <= routes@.len(),
                all == route_views(routes@),
                asked == pending.asked(),
                response == Ok::<Vec<Route>, Error>(routes),
                self.cache() == before,
                before == old(self).cache(),
                stray_metric(asked, all) == stray_metric(asked, all.skip(i as int)),
            decreases routes@.len() - i,
        {
            assert(all.skip(i as int)[0] == routes@[i as int]@);
            assert(all.skip(i as int).skip(1) == all.skip(i + 1));
            if find_place(&pending.request, &routes[i].table).is_none() {
                assert(stray_metric(asked, all.skip(i as int)) == Some(routes@[i as int].table@));
                let mut msg = String::from_str("Unknown metric:");
                msg.append(routes[i].table.as_str());
                msg.append(" in response");
                return Err(Error::Unknown(msg));
            }
            i += 1;
        }

        // Fill miss endpoint and update cache.
        let RouteClientPending { at_hand, request, places } = pending;
        let ghost start = route_views(at_hand@);
        let ghost slots = places@.map_values(|p: usize| p as int);
        let mut target_endpoints = at_hand;
        let mut k: usize = 0;
        while k < routes.len()
            invariant
                k <= routes@.len(),
                all == route_views(routes@),
                asked == names(request@),
                slots == places@.map_values(|p: usize| p as int),
                request@.len() == places@.len(),
                target_endpoints@.len() == start.len(),
                forall|j: int| 0 <= j < places@.len() ==> #[trigger] places@[j] < start.len(),
                self.cache() == kept(before, all.take(k as int)),
                route_views(target_endpoints@) == filled(start, asked, slots, all.take(k as int)),
            decreases routes@.len() - k,
        {
            proof {
                assert(all.take(k + 1).drop_last() == all.take(k as int));
                assert(all.take(k + 1).last() == routes@[k as int]@);
            }
            let route = &routes[k];
            let ghost filled_before = route_views(target_endpoints@);
            match find_place(&request, &route.table) {
                Some(j) => {
                    let place = places[j];
                    target_endpoints[place] = route.clone();
                    assert(route_views(target_endpoints@) =~= filled_before.update(
                        place as int,
                        route@,
                    ));
                },
                None => {},
            }
            route_client_cache_or_insert(&mut self.cache, route.table.clone(), route.clone());
            k += 1;
        }
        assert(all.take(k as int) == all);
        Ok(target_endpoints)
    }
}

/// What is asked for stands among the metrics.
proof fn lemma_asked_are_among(
    cache: Map<Seq<char>, RouteView>,
    metrics: Seq<Seq<char>>,
    force_refresh: bool,
)
    ensures
        forall|m: Seq<char>| #[trigger]
            metrics_to_ask(cache, metrics, force_refresh).contains(m) <==> metrics.contains(m) && (
            force_refresh || !cache.contains_key(m)),
        forall|a: int, b: int|
            0 <= a < b < metrics_to_ask(cache, metrics, force_refresh).len() ==> metrics_to_ask(
                cache,
                metrics,
                force_refresh,
            )[a] != metrics_to_ask(cache, metrics, force_refresh)[b],
    decreases metrics.len(),
{
    if metrics.len() > 0 {
        let head = metrics.drop_last();
        let last = metrics.last();
        lemma_asked_are_among(cache, head, force_refresh);
        let before = metrics_to_ask(cache, head, force_refresh);
        let now = metrics_to_ask(cache, metrics, force_refresh);
        assert(metrics[metrics.len() - 1] == last);
        assert forall|m: Seq<char>| #[trigger]
            now.contains(m) <==> metrics.contains(m) && (force_refresh || !cache.contains_key(
                m,
            )) by {
            let in_head = head.contains(m);
            if in_head {
                let j = choose|j: int| 0 <= j < head.len() && head[j] == m;
                assert(metrics[j] == m);
            }
            if metrics.contains(m) && m != last {
                let j = choose|j: int| 0 <= j < metrics.len() && metrics[j] == m;
                assert(head[j] == m);
            }
            if now.contains(m) {
                let j = choose|j: int| 0 <= j < now.len() && now[j] == m;
                if j < before.len() {
                    assert(before[j] == m);
                }
            }
            if before.contains(m) {
                let j = choose|j: int| 0 <= j < before.len() && before[j] == m;
                assert(now[j] == m);
            }
            if m == last && (force_refresh || !cache.contains_key(m)) && !before.contains(m) {
                assert(now[before.len() as int] == m);
            }
        }
    }
}

/// A metric that is found repeated among the first metrics is the one found
/// among all.
proof fn lemma_repeated_miss_is_kept(cache: Map<Seq<char>, RouteView>, metrics: Seq<Seq<char>>, k: int)
    requires
        0 <= k <= metrics.len(),
        repeated_miss(cache, metrics.take(k)) is Some,
    ensures
        repeated_miss(cache, metrics) == repeated_miss(cache, metrics.take(k)),
    decreases metrics.len() - k,
{
    if k < metrics.len() {
        assert(metrics.take(k + 1).drop_last() == metrics.take(k));
        lemma_repeated_miss_is_kept(cache, metrics, k + 1);
    } else {
        assert(metrics.take(k) == metrics);
    }
}

} // verus!
