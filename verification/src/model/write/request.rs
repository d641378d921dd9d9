//! Write request and some useful tools for it.

use vstd::prelude::*;
use crate::model::write::point::Point;

verus! {

/// The points of one table: its name, and the points in the order in which
/// they were added.
pub type PointGroup = (String, Vec<Point>);

/// What a write request stands for: for each table its name and its points.
pub open spec fn group_views(groups: Seq<PointGroup>) -> Seq<(Seq<char>, Seq<Point>)> {
    groups.map_values(|g: PointGroup| (g.0@, g.1@))
}

/// The index of the group of the given table.
pub open spec fn group_index(groups: Seq<(Seq<char>, Seq<Point>)>, table: Seq<char>) -> Option<int>
    decreases groups.len(),
{
    if groups.len() == 0 {
        None
    } else {
        match group_index(groups.drop_last(), table) {
            Some(i) => Some(i),
            None => if groups.last().0 == table {
                Some(groups.len() - 1)
            } else {
                None
            },
        }
    }
}

/// The groups with one more point: at the end of the group of its table, or
/// in a new group at the end where its table has none.
pub open spec fn with_point(groups: Seq<(Seq<char>, Seq<Point>)>, point: Point) -> Seq<
    (Seq<char>, Seq<Point>),
> {
    match group_index(groups, point.table@) {
        Some(i) => groups.update(i, (groups[i].0, groups[i].1.push(point))),
        None => groups.push((point.table@, seq![point])),
    }
}

/// The groups with more points, added one after the other.
pub open spec fn with_points(groups: Seq<(Seq<char>, Seq<Point>)>, points: Seq<Point>) -> Seq<
    (Seq<char>, Seq<Point>),
>
    decreases points.len(),
{
    if points.len() == 0 {
        groups
    } else {
        with_point(with_points(groups, points.drop_last()), points.last())
    }
}

/// What is left of the groups, and what is taken out, when the groups of
/// the given tables are taken out one after the other.
pub open spec fn taken(groups: Seq<(Seq<char>, Seq<Point>)>, tables: Seq<Seq<char>>) -> (
    Seq<(Seq<char>, Seq<Point>)>,
    Seq<(Seq<char>, Seq<Point>)>,
)
    decreases tables.len(),
{
    if tables.len() == 0 {
        (groups, Seq::empty())
    } else {
        let (left, out) = taken(groups, tables.drop_last());
        match group_index(left, tables.last()) {
            Some(i) => (left.remove(i), out.push(left[i])),
            None => (left, out),
        }
    }
}

/// No table has two groups, and the points of a group are points of its
/// table.
pub open spec fn grouped(groups: Seq<(Seq<char>, Seq<Point>)>) -> bool {
    &&& forall|i: int, j: int|
        0 <= i < j < groups.len() ==> (#[trigger] groups[i]).0 != (#[trigger] groups[j]).0
    &&& forall|i: int, k: int|
        0 <= i < groups.len() && 0 <= k < groups[i].1.len() ==> (#[trigger] groups[i].1[k]).table@
            == groups[i].0
}

/// A group is found exactly where a group of that table stands.
pub proof fn lemma_group_index(groups: Seq<(Seq<char>, Seq<Point>)>, table: Seq<char>)
    ensures
        match group_index(groups, table) {
            Some(i) => 0 <= i < groups.len() && groups[i].0 == table && forall|j: int|
                0 <= j < i ==> (#[trigger] groups[j]).0 != table,
            None => forall|j: int| 0 <= j < groups.len() ==> (#[trigger] groups[j]).0 != table,
        },
    decreases groups.len(),
{
    if groups.len() > 0 {
        lemma_group_index(groups.drop_last(), table);
        assert forall|j: int| 0 <= j < groups.len() - 1 implies groups.drop_last()[j]
            == groups[j] by {}
        match group_index(groups.drop_last(), table) {
            Some(i) => {
                assert forall|j: int| 0 <= j < i implies (#[trigger] groups[j]).0 != table by {
                    assert(groups.drop_last()[j] == groups[j]);
                }
            },
            None => {
                assert forall|j: int| 0 <= j < groups.len() - 1 implies (#[trigger] groups[j]).0
                    != table by {
                    assert(groups.drop_last()[j] == groups[j]);
                }
            },
        }
    }
}

/// Write request
#[derive(Debug)]
pub struct Request {
    point_groups: Vec<PointGroup>,
}

impl View for Request {
    type V = Seq<(Seq<char>, Seq<Point>)>;

    closed spec fn view(&self) -> Seq<(Seq<char>, Seq<Point>)> {
        group_views(self.point_groups@)
    }
}

/// `copy` holds what `points` holds.
pub open spec fn same_points(copy: Seq<Point>, points: Seq<Point>) -> bool {
    &&& copy.len() == points.len()
    &&& forall|k: int|
        0 <= k < copy.len() ==> {
            &&& (#[trigger] copy[k]).table == points[k].table
            &&& copy[k].timestamp == points[k].timestamp
            &&& copy[k].tags@ == points[k].tags@
            &&& copy[k].fields@ == points[k].fields@
        }
}

impl Clone for Request {
    fn clone(&self) -> (r: Self)
        ensures
            r@.len() == self@.len(),
            forall|i: int| 0 <= i < r@.len() ==> (#[trigger] r@[i]).0 == self@[i].0,
            forall|i: int| 0 <= i < r@.len() ==> same_points((#[trigger] r@[i]).1, self@[i].1),
    {
        proof {
            use_type_invariant(self);
        }
        let ghost all = group_views(self.point_groups@);
        let mut groups: Vec<PointGroup> = Vec::new();
        let mut i: usize = 0;
        while i < self.point_groups.len()
            invariant
                i <= self.point_groups@.len(),
                all == group_views(self.point_groups@),
                groups@.len() == i,
                forall|a: int| 0 <= a < i ==> (#[trigger] group_views(groups@)[a]).0 == all[a].0,
                forall|a: int|
                    0 <= a < i ==> same_points((#[trigger] group_views(groups@)[a]).1, all[a].1),
            decreases self.point_groups@.len() - i,
        {
            let source = &self.point_groups[i].1;
            let mut points: Vec<Point> = Vec::new();
            let mut k: usize = 0;
            while k < source.len()
                invariant
                    k <= source@.len(),
                    same_points(points@, source@.take(k as int)),
                decreases source@.len() - k,
            {
                points.push(source[k].clone());
                k += 1;
            }
            assert(source@.take(k as int) == source@);
            let ghost done = group_views(groups@);
            groups.push((self.point_groups[i].0.clone(), points));
            proof {
                let now = group_views(groups@);
                assert forall|a: int| 0 <= a < i + 1 implies (#[trigger] now[a]).0 == all[a].0
                    && same_points(now[a].1, all[a].1) by {
                    if a < i {
                        assert(now[a] == done[a]);
                    }
                }
            }
            i += 1;
        }
        proof {
            let copy = group_views(groups@);
            assert(grouped(copy)) by {
                assert forall|a: int, b: int| 0 <= a < b < copy.len() implies (
                #[trigger] copy[a]).0 != (#[trigger] copy[b]).0 by {
                    assert(copy[a].0 == all[a].0 && copy[b].0 == all[b].0);
                }
                assert forall|a: int, k: int|
                    0 <= a < copy.len() && 0 <= k < copy[a].1.len() implies (
                #[trigger] copy[a].1[k]).table@ == copy[a].0 by {
                    assert(same_points(copy[a].1, all[a].1));
                    assert(copy[a].1[k].table == all[a].1[k].table);
                    assert(all[a].1[k].table@ == all[a].0);
                    assert(copy[a].0 == all[a].0);
                }
            }
        }
        Request { point_groups: groups }
    }
}

impl Default for Request {
    fn default() -> (r: Self)
        ensures
            r@.len() == 0,
    {
        Request { point_groups: Vec::new() }
    }
}

impl Request {
    #[verifier::type_invariant]
    pub closed spec fn wf(self) -> bool {
        grouped(group_views(self.point_groups@))
    }

    /// The points of the request, table by table. No table has two groups,
    /// and the points of a group are points of its table.
    pub fn point_groups(&self) -> (r: &Vec<PointGroup>)
        ensures
            group_views(r@) == self@,
            grouped(self@),
    {
        proof {
            use_type_invariant(self);
        }
        &self.point_groups
    }

    /// Adds the point to the points of its table.
    pub fn add_point(&mut self, point: Point)
        ensures
            final(self)@ == with_point(old(self)@, point),
            grouped(final(self)@),
    {
        proof {
            use_type_invariant(&*self);
            lemma_group_index(self@, point.table@);
        }
        let ghost before = self@;
        let found = find_group(&self.point_groups, &point.table);
        let mut groups: Vec<PointGroup> = Vec::new();
        core::mem::swap(&mut groups, &mut self.point_groups);
        match found {
            Some(i) => {
                groups[i].1.push(point);
                assert(group_views(groups@) =~= with_point(before, point));
            },
            None => {
                let table = point.table.clone();
                let mut points: Vec<Point> = Vec::new();
                points.push(point);
                groups.push((table, points));
                assert(group_views(groups@) =~= with_point(before, point));
            },
        }
        proof {
            let after = group_views(groups@);
            assert forall|a: int, k: int|
                0 <= a < after.len() && 0 <= k < after[a].1.len() implies (
            #[trigger] after[a].1[k]).table@ == after[a].0 by {
                if a < before.len() && k < before[a].1.len() {
                    assert(after[a].1[k] == before[a].1[k]);
                }
            }
            assert(grouped(after));
        }
        self.point_groups = groups;
    }

    /// Adds the points, one after the other.
    pub fn add_points(&mut self, points: Vec<Point>)
        ensures
            final(self)@ == with_points(old(self)@, points@),
            grouped(final(self)@),
    {
        proof {
            use_type_invariant(&*self);
        }
        let ghost all = points@;
        let ghost before = self@;
        for point in it: points.into_iter()
            invariant
                it.seq() == all,
                self@ == with_points(before, all.take(it.index())),
                grouped(self@),
        {
            proof {
                let k = it.index();
                assert(all.take(k + 1).drop_last() == all.take(k));
                assert(all.take(k + 1).last() == point);
            }
            self.add_point(point);
        }
        assert(all.take(all.len() as int) == all);
    }

    /// The points of the request, table by table.
    pub fn into_point_groups(self) -> (r: Vec<PointGroup>)
        ensures
            group_views(r@) == self@,
            grouped(self@),
    {
        proof {
            use_type_invariant(&self);
        }
        self.point_groups
    }

    /// The tables of the request, each once.
    pub fn tables(&self) -> (r: Vec<String>)
        ensures
            r@.len() == self@.len(),
            forall|i: int| 0 <= i < r@.len() ==> (#[trigger] r@[i])@ == self@[i].0,
    {
        let mut tables: Vec<String> = Vec::new();
        let mut i: usize = 0;
        while i < self.point_groups.len()
            invariant
                i <= self.point_groups@.len(),
                tables@.len() == i,
                forall|k: int| 0 <= k < i ==> (#[trigger] tables@[k])@ == self@[k].0,
            decreases self.point_groups@.len() - i,
        {
            tables.push(self.point_groups[i].0.clone());
            i += 1;
        }
        tables
    }

    /// Takes the points of the given tables out of the request: they make
    /// the request that is returned, in the order of the tables.
    pub fn take(&mut self, tables: &Vec<String>) -> (r: Request)
        ensures
            (final(self)@, r@) == taken(old(self)@, crate::model::route::names(tables@)),
            grouped(final(self)@),
            grouped(r@),
    {
        proof {
            use_type_invariant(&*self);
        }
        let ghost all = crate::model::route::names(tables@);
        let ghost before = self@;
        let mut left: Vec<PointGroup> = Vec::new();
        core::mem::swap(&mut left, &mut self.point_groups);
        let mut out: Vec<PointGroup> = Vec::new();
        let mut i: usize = 0;
        while i < tables.len()
            invariant
                i <= tables@.len(),
                all == crate::model::route::names(tables@),
                (group_views(left@), group_views(out@)) == taken(before, all.take(i as int)),
                grouped(group_views(left@)),
                grouped(group_views(out@)),
                forall|a: int, c: int|
                    0 <= a < out@.len() && 0 <= c < left@.len() ==> (
                    #[trigger] group_views(out@)[a]).0 != (#[trigger] group_views(left@)[c]).0,
            decreases tables@.len() - i,
        {
            proof {
                assert(all.take(i + 1).drop_last() == all.take(i as int));
                assert(all.take(i + 1).last() == tables@[i as int]@);
            }
            let ghost left_before = group_views(left@);
            let ghost out_before = group_views(out@);
            match find_group(&left, &tables[i]) {
                Some(at) => {
                    let group = left.remove(at);
                    out.push(group);
                    proof {
                        let left_after = group_views(left@);
                        let out_after = group_views(out@);
                        assert(left_after =~= left_before.remove(at as int));
                        assert(out_after =~= out_before.push(left_before[at as int]));
                        assert forall|j: int| 0 <= j < left_after.len() implies (
                        #[trigger] left_after[j]) == left_before[if j < at {
                            j
                        } else {
                            j + 1
                        }] by {}
                        assert(grouped(left_after)) by {
                            assert forall|x: int, y: int|
                                0 <= x < y < left_after.len() implies (#[trigger] left_after[x]).0
                                != (#[trigger] left_after[y]).0 by {
                                let x0 = if x < at { x } else { x + 1 };
                                let y0 = if y < at { y } else { y + 1 };
                                assert(left_after[x] == left_before[x0]);
                                assert(left_after[y] == left_before[y0]);
                            }
                            assert forall|x: int, k: int|
                                0 <= x < left_after.len() && 0 <= k < left_after[x].1.len() implies (
                            #[trigger] left_after[x].1[k]).table@ == left_after[x].0 by {
                                let x0 = if x < at { x } else { x + 1 };
                                assert(left_after[x] == left_before[x0]);
                                assert(left_before[x0].1[k].table@ == left_before[x0].0);
                            }
                        }
                        assert(grouped(out_after)) by {
                            assert forall|x: int, y: int|
                                0 <= x < y < out_after.len() implies (#[trigger] out_after[x]).0
                                != (#[trigger] out_after[y]).0 by {
                                if y < out_before.len() {
                                    assert(out_after[x] == out_before[x]);
                                    assert(out_after[y] == out_before[y]);
                                } else {
                                    assert(out_after[x] == out_before[x]);
                                    assert(out_after[y] == left_before[at as int]);
                                }
                            }
                            assert forall|x: int, k: int|
                                0 <= x < out_after.len() && 0 <= k < out_after[x].1.len() implies (
                            #[trigger] out_after[x].1[k]).table@ == out_after[x].0 by {
                                if x < out_before.len() {
                                    assert(out_after[x] == out_before[x]);
                                    assert(out_before[x].1[k].table@ == out_before[x].0);
                                } else {
                                    assert(out_after[x] == left_before[at as int]);
                                    assert(left_before[at as int].1[k].table@
                                        == left_before[at as int].0);
                                }
                            }
                        }
                        assert forall|a: int, c: int|
                            0 <= a < out@.len() && 0 <= c < left@.len() implies (
                        #[trigger] out_after[a]).0 != (#[trigger] left_after[c]).0 by {
                            let c0 = if c < at { c } else { c + 1 };
                            assert(left_after[c] == left_before[c0]);
                            if a < out_before.len() {
                                assert(out_after[a] == out_before[a]);
                            } else {
                                assert(out_after[a] == left_before[at as int]);
                            }
                        }
                    }
                },
                None => {},
            }
            i += 1;
        }
        assert(all.take(i as int) == all);
        self.point_groups = left;
        Request { point_groups: out }
    }
}

/// The index of the group of the table.
fn find_group(groups: &Vec<PointGroup>, table: &String) -> (r: Option<usize>)
    ensures
        match r {
            Some(i) => group_index(group_views(groups@), table@) == Some(i as int) && i
                < groups@.len(),
            None => group_index(group_views(groups@), table@) is None,
        },
{
    let ghost all = group_views(groups@);
    let mut i: usize = 0;
    while i < groups.len()
        invariant
            i <= groups@.len(),
            all == group_views(groups@),
            group_index(all.take(i as int), table@) is None,
        decreases groups@.len() - i,
    {
        proof {
            assert(all.take(i + 1).drop_last() == all.take(i as int));
            assert(all.take(i + 1).last() == all[i as int]);
        }
        if groups[i].0 == *table {
            proof {
                lemma_group_is_kept(all, i + 1, table@);
            }
            return Some(i);
        }
        i += 1;
    }
    assert(all.take(i as int) == all);
    None
}

/// A group that is found among the first groups is the one found among all.
proof fn lemma_group_is_kept(groups: Seq<(Seq<char>, Seq<Point>)>, k: int, table: Seq<char>)
    requires
        0 <= k <= groups.len(),
        group_index(groups.take(k), table) is Some,
    ensures
        group_index(groups, table) == group_index(groups.take(k), table),
    decreases groups.len() - k,
{
    if k < groups.len() {
        assert(groups.take(k + 1).drop_last() == groups.take(k));
        lemma_group_is_kept(groups, k + 1, table);
    } else {
        assert(groups.take(k) == groups);
    }
}

} // verus!
