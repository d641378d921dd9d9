//! The split of a write by the endpoints that its tables are routed to.

use vstd::prelude::*;
use crate::model::route::{endpoint_views, names, Endpoint, EndpointView};
use crate::model::write::point::Point;
use crate::model::write::request::{
    group_index, grouped, lemma_group_index, taken, Request,
};

verus! {

/// The endpoints that a write goes out to: each endpoint that some table is
/// routed to, once, in the order in which they first occur.
pub open spec fn destinations(endpoints: Seq<Option<EndpointView>>) -> Seq<EndpointView>
    decreases endpoints.len(),
{
    if endpoints.len() == 0 {
        Seq::empty()
    } else {
        let before = destinations(endpoints.drop_last());
        match endpoints.last() {
            Some(e) => if before.contains(e) {
                before
            } else {
                before.push(e)
            },
            None => before,
        }
    }
}

/// The tables that are routed to `target`, in their order. With no target
/// these are the tables that no endpoint serves.
pub open spec fn tables_routed_to(
    tables: Seq<String>,
    endpoints: Seq<Option<EndpointView>>,
    target: Option<EndpointView>,
) -> Seq<String>
    decreases tables.len(),
{
    if tables.len() == 0 {
        Seq::empty()
    } else {
        let before = tables_routed_to(tables.drop_last(), endpoints.drop_last(), target);
        if endpoints.last() == target {
            before.push(tables.last())
        } else {
            before
        }
    }
}

/// The part of a write that goes to one endpoint.
#[derive(Debug)]
pub struct Partition {
    pub endpoint: Endpoint,
    pub tables: Vec<String>,
}

/// `partitions` and `unroutable` split `tables` by endpoint: one partition
/// for each destination, which holds the tables routed to it, and the tables
/// without endpoint apart.
pub open spec fn partitioned(
    partitions: Seq<Partition>,
    unroutable: Seq<String>,
    tables: Seq<String>,
    endpoints: Seq<Option<EndpointView>>,
) -> bool {
    &&& partitions.len() == destinations(endpoints).len()
    &&& forall|k: int|
        0 <= k < partitions.len() ==> (#[trigger] partitions[k]).endpoint@ == destinations(
            endpoints,
        )[k]
    &&& forall|k: int|
        0 <= k < partitions.len() ==> (#[trigger] partitions[k]).tables@ == tables_routed_to(
            tables,
            endpoints,
            Some(destinations(endpoints)[k]),
        )
    &&& unroutable == tables_routed_to(tables, endpoints, None)
}

/// No endpoint occurs twice among the destinations, and each endpoint that a
/// table is routed to is one of them.
pub proof fn lemma_destinations_distinct(endpoints: Seq<Option<EndpointView>>)
    ensures
        forall|a: int, b: int|
            0 <= a < b < destinations(endpoints).len() ==> destinations(endpoints)[a]
                != destinations(endpoints)[b],
        forall|i: int|
            0 <= i < endpoints.len() ==> (#[trigger] endpoints[i] matches Some(e)
                ==> destinations(endpoints).contains(e)),
    decreases endpoints.len(),
{
    if endpoints.len() > 0 {
        let head = endpoints.drop_last();
        lemma_destinations_distinct(head);
        let before = destinations(head);
        let now = destinations(endpoints);
        assert forall|i: int| 0 <= i < endpoints.len() implies (#[trigger] endpoints[i] matches Some(
            e,
        ) ==> now.contains(e)) by {
            if let Some(e) = endpoints[i] {
                if i < head.len() {
                    assert(head[i] == endpoints[i]);
                    let j = choose|j: int| 0 <= j < before.len() && before[j] == e;
                    assert(now[j] == e);
                } else if before.contains(e) {
                } else {
                    assert(now[before.len() as int] == e);
                }
            }
        }
    }
}

fn find_partition(partitions: &Vec<Partition>, endpoint: &Endpoint) -> (r: Option<usize>)
    ensures
        match r {
            Some(j) => j < partitions@.len() && partitions@[j as int].endpoint@ == endpoint@,
            None => forall|k: int|
                0 <= k < partitions@.len() ==> (#[trigger] partitions@[k]).endpoint@ != endpoint@,
        },
{
    let mut j: usize = 0;
    while j < partitions.len()
        invariant
            j <= partitions@.len(),
            forall|k: int| 0 <= k < j ==> (#[trigger] partitions@[k]).endpoint@ != endpoint@,
        decreases partitions@.len() - j,
    {
        if partitions[j].endpoint == *endpoint {
            return Some(j);
        }
        j += 1;
    }
    None
}

/// Splits the tables of a write by the endpoints that they are routed to.
pub fn partition_by_endpoint(tables: &Vec<String>, endpoints: &Vec<Option<Endpoint>>) -> (r: (
    Vec<Partition>,
    Vec<String>,
))
    requires
        tables@.len() == endpoints@.len(),
    ensures
        partitioned(r.0@, r.1@, tables@, endpoint_views(endpoints@)),
{
    let ghost all = endpoint_views(endpoints@);
    let mut partitions: Vec<Partition> = Vec::new();
    let mut no_corresponding_endpoints: Vec<String> = Vec::new();
    let mut i: usize = 0;
    while i < tables.len()
        invariant
            i <= tables@.len(),
            tables@.len() == endpoints@.len(),
            all == endpoint_views(endpoints@),
            all.len() == endpoints@.len(),
            partitioned(
                partitions@,
                no_corresponding_endpoints@,
                tables@.take(i as int),
                all.take(i as int),
            ),
        decreases tables@.len() - i,
    {
        let ghost seen = all.take(i as int);
        let ghost next = all.take(i + 1);
        let ghost before = partitions@;
        proof {
            assert(next.drop_last() == seen);
            assert(next.last() == all[i as int]);
            assert(tables@.take(i + 1).drop_last() == tables@.take(i as int));
            assert(tables@.take(i + 1).last() == tables@[i as int]);
            lemma_destinations_distinct(seen);
        }
        match &endpoints[i] {
            Some(endpoint) => {
                match find_partition(&partitions, endpoint) {
                    Some(j) => {
                        assert(destinations(seen)[j as int] == endpoint@);
                        assert(destinations(next) == destinations(seen));
                        partitions[j].tables.push(tables[i].clone());
                    },
                    None => {
                        assert(!destinations(seen).contains(endpoint@)) by {
                            if destinations(seen).contains(endpoint@) {
                                let k = choose|k: int|
                                    0 <= k < destinations(seen).len() && destinations(seen)[k]
                                        == endpoint@;
                                assert(before[k].endpoint@ == endpoint@);
                            }
                        }
                        let mut group: Vec<String> = Vec::new();
                        group.push(tables[i].clone());
                        assert(tables_routed_to(tables@.take(i as int), seen, Some(endpoint@))
                            == Seq::<String>::empty()) by {
                            lemma_unrouted_has_no_tables(
                                tables@.take(i as int),
                                seen,
                                endpoint@,
                            );
                        }
                        partitions.push(Partition { endpoint: endpoint.clone(), tables: group });
                    },
                }
            },
            None => {
                no_corresponding_endpoints.push(tables[i].clone());
            },
        }
        i += 1;
    }
    assert(tables@.take(i as int) == tables@);
    assert(all.take(i as int) == all);
    (partitions, no_corresponding_endpoints)
}

/// No table is routed to an endpoint that is not among the destinations.
pub proof fn lemma_unrouted_has_no_tables(
    tables: Seq<String>,
    endpoints: Seq<Option<EndpointView>>,
    target: EndpointView,
)
    requires
        tables.len() == endpoints.len(),
        !destinations(endpoints).contains(target),
    ensures
        tables_routed_to(tables, endpoints, Some(target)) == Seq::<String>::empty(),
    decreases tables.len(),
{
    if tables.len() > 0 {
        lemma_destinations_distinct(endpoints);
        let before = destinations(endpoints.drop_last());
        if before.contains(target) {
            let j = choose|j: int| 0 <= j < before.len() && before[j] == target;
            assert(destinations(endpoints)[j] == target);
        }
        assert(endpoints[endpoints.len() - 1] == endpoints.last());
        lemma_unrouted_has_no_tables(tables.drop_last(), endpoints.drop_last(), target);
    }
}

/// The number of tables in the partitions of the given endpoints.
pub open spec fn routed_count(
    tables: Seq<String>,
    endpoints: Seq<Option<EndpointView>>,
    targets: Seq<EndpointView>,
) -> nat
    decreases targets.len(),
{
    if targets.len() == 0 {
        0
    } else {
        routed_count(tables, endpoints, targets.drop_last()) + tables_routed_to(
            tables,
            endpoints,
            Some(targets.last()),
        ).len()
    }
}

proof fn lemma_routed_count_step(
    tables: Seq<String>,
    endpoints: Seq<Option<EndpointView>>,
    targets: Seq<EndpointView>,
)
    requires
        tables.len() == endpoints.len(),
        tables.len() > 0,
        forall|a: int, b: int| 0 <= a < b < targets.len() ==> targets[a] != targets[b],
    ensures
        routed_count(tables, endpoints, targets) == routed_count(
            tables.drop_last(),
            endpoints.drop_last(),
            targets,
        ) + if endpoints.last() matches Some(e) && targets.contains(e) {
            1nat
        } else {
            0nat
        },
    decreases targets.len(),
{
    if targets.len() > 0 {
        let head = targets.drop_last();
        let d = targets.last();
        assert(targets[targets.len() - 1] == d);
        assert forall|a: int, b: int| 0 <= a < b < head.len() implies head[a] != head[b] by {
            assert(head[a] == targets[a] && head[b] == targets[b]);
        }
        lemma_routed_count_step(tables, endpoints, head);
        if let Some(e) = endpoints.last() {
            if head.contains(e) {
                let j = choose|j: int| 0 <= j < head.len() && head[j] == e;
                assert(targets[j] == e);
                assert(d != e);
            }
            if targets.contains(e) && e != d {
                let j = choose|j: int| 0 <= j < targets.len() && targets[j] == e;
                assert(head[j] == e);
            }
        }
    }
}

/// Splitting loses no table and repeats none: each table stands in the
/// partition of the endpoint that it is routed to, or among the tables
/// without endpoint, and the partitions together hold as many tables as the
/// write has.
pub proof fn lemma_partition_complete(tables: Seq<String>, endpoints: Seq<Option<EndpointView>>)
    requires
        tables.len() == endpoints.len(),
    ensures
        forall|i: int|
            0 <= i < tables.len() ==> tables_routed_to(
                tables,
                endpoints,
                #[trigger] endpoints[i],
            ).contains(tables[i]),
        tables_routed_to(tables, endpoints, None).len() + routed_count(
            tables,
            endpoints,
            destinations(endpoints),
        ) == tables.len(),
    decreases tables.len(),
{
    if tables.len() > 0 {
        let head_t = tables.drop_last();
        let head_e = endpoints.drop_last();
        lemma_partition_complete(head_t, head_e);
        lemma_destinations_distinct(endpoints);
        lemma_destinations_distinct(head_e);
        let before = destinations(head_e);
        let now = destinations(endpoints);
        lemma_routed_count_step(tables, endpoints, now);
        assert(endpoints[endpoints.len() - 1] == endpoints.last());
        match endpoints.last() {
            Some(e) => {
                if !before.contains(e) {
                    assert(now.drop_last() == before);
                    lemma_unrouted_has_no_tables(head_t, head_e, e);
                }
            },
            None => {},
        }
        assert forall|i: int| 0 <= i < tables.len() implies tables_routed_to(
            tables,
            endpoints,
            #[trigger] endpoints[i],
        ).contains(tables[i]) by {
            let whole = tables_routed_to(tables, endpoints, endpoints[i]);
            if i < head_t.len() {
                assert(head_e[i] == endpoints[i] && head_t[i] == tables[i]);
                let part = tables_routed_to(head_t, head_e, head_e[i]);
                let j = choose|j: int| 0 <= j < part.len() && part[j] == tables[i];
                assert(whole[j] == tables[i]);
            } else {
                assert(whole[whole.len() - 1] == tables[i]);
            }
        }
    }
}

/// The tables each once, in the order in which they first occur.
pub open spec fn distinct(tables: Seq<String>) -> Seq<String>
    decreases tables.len(),
{
    if tables.len() == 0 {
        Seq::empty()
    } else {
        let before = distinct(tables.drop_last());
        if names(before).contains(tables.last()@) {
            before
        } else {
            before.push(tables.last())
        }
    }
}

/// The tables each once, in the order in which they first occur.
pub fn distinct_tables(tables: &[String]) -> (r: Vec<String>)
    ensures
        r@ == distinct(tables@),
{
    let mut found: Vec<String> = Vec::new();
    let mut i: usize = 0;
    while i < tables.len()
        invariant
            i <= tables@.len(),
            found@ == distinct(tables@.take(i as int)),
        decreases tables@.len() - i,
    {
        proof {
            assert(tables@.take(i + 1).drop_last() == tables@.take(i as int));
            assert(tables@.take(i + 1).last() == tables@[i as int]);
        }
        let mut known = false;
        let mut j: usize = 0;
        while j < found.len()
            invariant
                j <= found@.len(),
                i < tables@.len(),
                known == names(found@).take(j as int).contains(tables@[i as int]@),
            decreases found@.len() - j,
        {
            proof {
                let seen = names(found@).take(j as int);
                let more = names(found@).take(j + 1);
                assert(more == seen.push(found@[j as int]@));
                if seen.contains(tables@[i as int]@) {
                    let w = choose|w: int| 0 <= w < seen.len() && seen[w] == tables@[i as int]@;
                    assert(more[w] == tables@[i as int]@);
                }
                if found@[j as int]@ == tables@[i as int]@ {
                    assert(more[j as int] == tables@[i as int]@);
                }
            }
            if found[j] == tables[i] {
                known = true;
            }
            j += 1;
        }
        assert(names(found@).take(j as int) == names(found@));
        if !known {
            found.push(tables[i].clone());
        }
        i += 1;
    }
    assert(tables@.take(i as int) == tables@);
    found
}

/// The tables of each partition.
pub open spec fn partition_tables(partitions: Seq<Partition>) -> Seq<Seq<Seq<char>>> {
    partitions.map_values(|p: Partition| names(p.tables@))
}

/// What is left of the groups of a request, and what each partition gets,
/// when the partitions take the groups of their tables one after the other.
pub open spec fn shared_out(
    groups: Seq<(Seq<char>, Seq<Point>)>,
    tables: Seq<Seq<Seq<char>>>,
) -> (Seq<(Seq<char>, Seq<Point>)>, Seq<Seq<(Seq<char>, Seq<Point>)>>)
    decreases tables.len(),
{
    if tables.len() == 0 {
        (groups, Seq::empty())
    } else {
        let (left, shares) = shared_out(groups, tables.drop_last());
        let (rest, share) = taken(left, tables.last());
        (rest, shares.push(share))
    }
}

/// The requests as what they stand for.
pub open spec fn request_views(requests: Seq<Request>) -> Seq<Seq<(Seq<char>, Seq<Point>)>> {
    requests.map_values(|r: Request| r@)
}

/// Splits a write request by the partitions of its tables: each partition
/// gets the points of its tables, in their order. What no partition takes is
/// left in the request that is returned last.
pub fn split_request(req: Request, partitions: &Vec<Partition>) -> (r: (Vec<Request>, Request))
    ensures
        (r.1@, request_views(r.0@)) == shared_out(req@, partition_tables(partitions@)),
{
    let ghost all = partition_tables(partitions@);
    let ghost start = req@;
    let mut rest = req;
    let mut requests: Vec<Request> = Vec::new();
    let mut k: usize = 0;
    while k < partitions.len()
        invariant
            k <= partitions@.len(),
            all == partition_tables(partitions@),
            (rest@, request_views(requests@)) == shared_out(start, all.take(k as int)),
        decreases partitions@.len() - k,
    {
        proof {
            assert(all.take(k + 1).drop_last() == all.take(k as int));
            assert(all.take(k + 1).last() == names(partitions@[k as int].tables@));
        }
        let ghost shares = request_views(requests@);
        let share = rest.take(&partitions[k].tables);
        requests.push(share);
        assert(request_views(requests@) =~= shares.push(share@));
        k += 1;
    }
    assert(all.take(k as int) == all);
    (requests, rest)
}

/// The groups that the partitions got, one partition after the other.
pub open spec fn all_shares(shares: Seq<Seq<(Seq<char>, Seq<Point>)>>) -> Seq<
    (Seq<char>, Seq<Point>),
>
    decreases shares.len(),
{
    if shares.len() == 0 {
        Seq::empty()
    } else {
        all_shares(shares.drop_last()) + shares.last()
    }
}

/// Taking groups out loses none and repeats none: what is taken and what is
/// left are, together, the groups that were there.
pub proof fn lemma_taken_conserves(groups: Seq<(Seq<char>, Seq<Point>)>, tables: Seq<Seq<char>>)
    ensures
        taken(groups, tables).0.to_multiset().add(taken(groups, tables).1.to_multiset())
            == groups.to_multiset(),
    decreases tables.len(),
{
    broadcast use {vstd::seq_lib::to_multiset_build, vstd::seq_lib::to_multiset_remove};

    if tables.len() == 0 {
        let none = Seq::<(Seq<char>, Seq<Point>)>::empty();
        vstd::seq_lib::to_multiset_len(none);
        vstd::multiset::lemma_multiset_empty_len(none.to_multiset());
        assert(none.to_multiset() =~= vstd::multiset::Multiset::empty());
        assert(groups.to_multiset().add(none.to_multiset()) =~= groups.to_multiset());
    } else {
        lemma_taken_conserves(groups, tables.drop_last());
        let (left, out) = taken(groups, tables.drop_last());
        lemma_group_index(left, tables.last());
        match group_index(left, tables.last()) {
            Some(i) => {
                let x = left[i];
                left.to_multiset_ensures();
                assert(left.to_multiset().count(x) > 0);
                assert(left.remove(i).to_multiset() =~= left.to_multiset().remove(x));
                assert(out.push(x).to_multiset() =~= out.to_multiset().insert(x));
                assert(left.to_multiset().remove(x).add(out.to_multiset().insert(x))
                    =~= left.to_multiset().add(out.to_multiset()));
            },
            None => {},
        }
    }
}

/// Sharing a request out loses no group and repeats none: what the
/// partitions get and what is left are, together, the groups of the request.
pub proof fn lemma_shared_out_conserves(
    groups: Seq<(Seq<char>, Seq<Point>)>,
    tables: Seq<Seq<Seq<char>>>,
)
    ensures
        shared_out(groups, tables).0.to_multiset().add(
            all_shares(shared_out(groups, tables).1).to_multiset(),
        ) == groups.to_multiset(),
        shared_out(groups, tables).1.len() == tables.len(),
    decreases tables.len(),
{
    if tables.len() == 0 {
        let none = Seq::<(Seq<char>, Seq<Point>)>::empty();
        vstd::seq_lib::to_multiset_len(none);
        vstd::multiset::lemma_multiset_empty_len(none.to_multiset());
        assert(none.to_multiset() =~= vstd::multiset::Multiset::empty());
        assert(groups.to_multiset().add(none.to_multiset()) =~= groups.to_multiset());
    } else {
        lemma_shared_out_conserves(groups, tables.drop_last());
        let (left, shares) = shared_out(groups, tables.drop_last());
        lemma_taken_conserves(left, tables.last());
        let (rest, share) = taken(left, tables.last());
        let before = all_shares(shares);
        assert(shares.push(share).drop_last() == shares);
        assert(all_shares(shares.push(share)) == before + share);
        vstd::seq_lib::lemma_multiset_commutative(before, share);
        assert(rest.to_multiset().add(before.to_multiset().add(share.to_multiset()))
            =~= rest.to_multiset().add(share.to_multiset()).add(before.to_multiset()));
    }
}

/// Without one of its groups, a request is still grouped by table, and no
/// group of that table is left.
proof fn lemma_without_group(groups: Seq<(Seq<char>, Seq<Point>)>, at: int)
    requires
        grouped(groups),
        0 <= at < groups.len(),
    ensures
        grouped(groups.remove(at)),
        forall|c: int|
            0 <= c < groups.remove(at).len() ==> (#[trigger] groups.remove(at)[c]).0
                != groups[at].0,
        forall|c: int|
            0 <= c < groups.remove(at).len() ==> groups.contains(#[trigger] groups.remove(at)[c]),
{
    let rest = groups.remove(at);
    assert forall|c: int| 0 <= c < rest.len() implies (#[trigger] rest[c]) == groups[if c < at {
        c
    } else {
        c + 1
    }] by {}
    assert forall|x: int, y: int| 0 <= x < y < rest.len() implies (#[trigger] rest[x]).0 != (
    #[trigger] rest[y]).0 by {
        let x0 = if x < at { x } else { x + 1 };
        let y0 = if y < at { y } else { y + 1 };
        assert(rest[x] == groups[x0] && rest[y] == groups[y0]);
    }
    assert forall|x: int, k: int| 0 <= x < rest.len() && 0 <= k < rest[x].1.len() implies (
    #[trigger] rest[x].1[k]).table@ == rest[x].0 by {
        let x0 = if x < at { x } else { x + 1 };
        assert(rest[x] == groups[x0]);
        assert(groups[x0].1[k].table@ == groups[x0].0);
    }
    assert forall|c: int| 0 <= c < rest.len() implies (#[trigger] rest[c]).0 != groups[at].0
        && groups.contains(rest[c]) by {
        let c0 = if c < at { c } else { c + 1 };
        assert(rest[c] == groups[c0]);
    }
}

/// Once the groups of some tables are taken out, no group of one of these
/// tables is left, and what is left was there before.
pub proof fn lemma_taken_leaves_none(groups: Seq<(Seq<char>, Seq<Point>)>, tables: Seq<Seq<char>>)
    requires
        grouped(groups),
    ensures
        grouped(taken(groups, tables).0),
        forall|c: int, j: int|
            0 <= c < taken(groups, tables).0.len() && 0 <= j < tables.len() ==> (
            #[trigger] taken(groups, tables).0[c]).0 != #[trigger] tables[j],
        forall|c: int|
            0 <= c < taken(groups, tables).0.len() ==> groups.contains(
                #[trigger] taken(groups, tables).0[c],
            ),
    decreases tables.len(),
{
    if tables.len() > 0 {
        let head = tables.drop_last();
        lemma_taken_leaves_none(groups, head);
        let (left, out) = taken(groups, head);
        let rest = taken(groups, tables).0;
        lemma_group_index(left, tables.last());
        match group_index(left, tables.last()) {
            Some(i) => {
                lemma_without_group(left, i);
                assert forall|c: int, j: int|
                    0 <= c < rest.len() && 0 <= j < tables.len() implies (#[trigger] rest[c]).0
                    != #[trigger] tables[j] by {
                    let c0 = if c < i { c } else { c + 1 };
                    assert(rest[c] == left[c0]);
                    if j < head.len() {
                        assert(head[j] == tables[j]);
                    }
                }
                assert forall|c: int| 0 <= c < rest.len() implies groups.contains(
                    #[trigger] rest[c],
                ) by {
                    let c0 = if c < i { c } else { c + 1 };
                    assert(rest[c] == left[c0]);
                }
            },
            None => {
                assert forall|c: int, j: int|
                    0 <= c < rest.len() && 0 <= j < tables.len() implies (#[trigger] rest[c]).0
                    != #[trigger] tables[j] by {
                    if j < head.len() {
                        assert(head[j] == tables[j]);
                    }
                }
            },
        }
    }
}

/// Once a request is shared out, no group of a table of a partition is
/// left, and what is left was in the request.
pub proof fn lemma_shared_out_leaves_none(
    groups: Seq<(Seq<char>, Seq<Point>)>,
    tables: Seq<Seq<Seq<char>>>,
)
    requires
        grouped(groups),
    ensures
        grouped(shared_out(groups, tables).0),
        forall|c: int, k: int, j: int|
            0 <= c < shared_out(groups, tables).0.len() && 0 <= k < tables.len() && 0 <= j
                < tables[k].len() ==> (#[trigger] shared_out(groups, tables).0[c]).0
                != #[trigger] tables[k][j],
        forall|c: int|
            0 <= c < shared_out(groups, tables).0.len() ==> groups.contains(
                #[trigger] shared_out(groups, tables).0[c],
            ),
    decreases tables.len(),
{
    if tables.len() > 0 {
        let head = tables.drop_last();
        lemma_shared_out_leaves_none(groups, head);
        let (left, shares) = shared_out(groups, head);
        lemma_taken_leaves_none(left, tables.last());
        let rest = shared_out(groups, tables).0;
        assert forall|c: int, k: int, j: int|
            0 <= c < rest.len() && 0 <= k < tables.len() && 0 <= j < tables[k].len() implies (
        #[trigger] rest[c]).0 != #[trigger] tables[k][j] by {
            assert(left.contains(rest[c]));
            let c0 = choose|c0: int| 0 <= c0 < left.len() && left[c0] == rest[c];
            if k < head.len() {
                assert(head[k] == tables[k]);
                assert(left[c0].0 != head[k][j]);
            } else {
                assert(tables[k] == tables.last());
            }
        }
        assert forall|c: int| 0 <= c < rest.len() implies groups.contains(#[trigger] rest[c]) by {
            assert(left.contains(rest[c]));
            let c0 = choose|c0: int| 0 <= c0 < left.len() && left[c0] == rest[c];
            assert(groups.contains(left[c0]));
        }
    }
}

/// Of a request that is shared out by the partitions of its tables, only
/// points of tables without endpoint are left: every group that is left
/// over, and whose table was routed, stands among the tables that no
/// endpoint serves.
pub proof fn lemma_only_unroutable_is_left(
    groups: Seq<(Seq<char>, Seq<Point>)>,
    tables: Seq<String>,
    endpoints: Seq<Option<EndpointView>>,
    partitions: Seq<Partition>,
    unroutable: Seq<String>,
)
    requires
        grouped(groups),
        tables.len() == endpoints.len(),
        partitioned(partitions, unroutable, tables, endpoints),
    ensures
        forall|c: int, i: int|
            0 <= c < shared_out(groups, partition_tables(partitions)).0.len() && 0 <= i
                < tables.len() && (#[trigger] shared_out(
                groups,
                partition_tables(partitions),
            ).0[c]).0 == (#[trigger] tables[i])@ ==> names(unroutable).contains(tables[i]@),
{
    let shares = partition_tables(partitions);
    let left = shared_out(groups, shares).0;
    lemma_shared_out_leaves_none(groups, shares);
    lemma_partition_complete(tables, endpoints);
    lemma_destinations_distinct(endpoints);
    assert forall|c: int, i: int|
        0 <= c < left.len() && 0 <= i < tables.len() && (#[trigger] left[c]).0 == (
        #[trigger] tables[i])@ implies names(unroutable).contains(tables[i]@) by {
        let routed = tables_routed_to(tables, endpoints, endpoints[i]);
        assert(routed.contains(tables[i]));
        let w = choose|w: int| 0 <= w < routed.len() && routed[w] == tables[i];
        match endpoints[i] {
            Some(e) => {
                let targets = destinations(endpoints);
                assert(targets.contains(e));
                let k = choose|k: int| 0 <= k < targets.len() && targets[k] == e;
                assert(partitions[k].tables@ == routed);
                assert(shares[k] == names(partitions[k].tables@));
                assert(shares[k][w] == tables[i]@);
                assert(left[c].0 != shares[k][w]);
            },
            None => {
                assert(names(unroutable)[w] == tables[i]@);
            },
        }
    }
}

/// The endpoints of the partitions.
pub open spec fn partition_endpoints(partitions: Seq<Partition>) -> Seq<EndpointView> {
    partitions.map_values(|p: Partition| p.endpoint@)
}

} // verus!
