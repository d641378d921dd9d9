//! From a write request to what goes over the wire: the points of a table
//! grouped into series, and the names of tags and fields replaced by their
//! places in a dictionary.

use vstd::prelude::*;
use crate::model::value::{TimestampMs, Value, ValueView};
use crate::model::write::point::{entry_views, Point, ValueMap};
use crate::model::write::request::{group_views, grouped, Request};

verus! {

/// A value under a name of the dictionary of its table.
#[derive(Debug, PartialEq)]
pub struct NamedValue {
    pub name_index: u32,
    pub value: Value,
}

pub type Tag = NamedValue;

pub type Field = NamedValue;

/// The fields of a series at one time.
#[derive(Debug, PartialEq)]
pub struct FieldGroup {
    pub timestamp: i64,
    pub fields: Vec<Field>,
}

/// A series: its tags, and its fields time by time.
#[derive(Debug, PartialEq)]
pub struct WriteSeriesEntry {
    pub tags: Vec<Tag>,
    pub field_groups: Vec<FieldGroup>,
}

/// The points of one table as they go over the wire.
#[derive(Debug, PartialEq)]
pub struct WriteTableRequest {
    pub table: String,
    pub tag_names: Vec<String>,
    pub field_names: Vec<String>,
    pub entries: Vec<WriteSeriesEntry>,
}

/// The key of a series: name and value of each tag, one after the other.
pub open spec fn tags_key(tags: Seq<(Seq<char>, ValueView)>) -> Seq<u8>
    decreases tags.len(),
{
    if tags.len() == 0 {
        Seq::empty()
    } else {
        tags_key(tags.drop_last()) + vstd::utf8::encode_utf8(tags.last().0) + tags.last().1.bytes()
    }
}

/// The key of the series with the given tags.
pub fn make_tags_key(tags: &ValueMap) -> (r: Vec<u8>)
    ensures
        r@ == tags_key(tags@),
{
    let entries = tags.entries();
    let ghost all = entry_views(entries@);
    let mut series_key: Vec<u8> = Vec::new();
    let mut i: usize = 0;
    while i < entries.len()
        invariant
            i <= entries@.len(),
            all == entry_views(entries@),
            series_key@ == tags_key(all.take(i as int)),
        decreases entries@.len() - i,
    {
        proof {
            assert(all.take(i + 1).drop_last() == all.take(i as int));
            assert(all.take(i + 1).last() == all[i as int]);
        }
        let mut name = entries[i].0.as_str().as_bytes_vec();
        let mut val = entries[i].1.to_bytes();
        series_key.append(&mut name);
        series_key.append(&mut val);
        i += 1;
    }
    assert(all.take(i as int) == all);
    series_key
}

/// What a series stands for.
pub struct SeriesView {
    pub tags: Seq<(Seq<char>, ValueView)>,
    pub ts_fields: Seq<(i64, Seq<(Seq<char>, ValueView)>)>,
}

/// The number of entries whose time is before `timestamp`.
pub open spec fn rank_of_time(
    ts_fields: Seq<(i64, Seq<(Seq<char>, ValueView)>)>,
    timestamp: i64,
) -> int
    decreases ts_fields.len(),
{
    if ts_fields.len() == 0 {
        0
    } else {
        rank_of_time(ts_fields.drop_last(), timestamp) + if ts_fields.last().0 < timestamp {
            1int
        } else {
            0int
        }
    }
}

/// The fields by time with `fields` at `timestamp`, in place of what was at
/// that time.
pub open spec fn with_fields(
    ts_fields: Seq<(i64, Seq<(Seq<char>, ValueView)>)>,
    timestamp: i64,
    fields: Seq<(Seq<char>, ValueView)>,
) -> Seq<(i64, Seq<(Seq<char>, ValueView)>)> {
    let at = rank_of_time(ts_fields, timestamp);
    let after = if at < ts_fields.len() && ts_fields[at].0 == timestamp {
        at + 1
    } else {
        at
    };
    ts_fields.take(at).push((timestamp, fields)) + ts_fields.skip(after)
}

/// The times stand in their order, each once.
pub open spec fn by_time(ts_fields: Seq<(i64, Seq<(Seq<char>, ValueView)>)>) -> bool {
    forall|i: int, j: int|
        0 <= i < j < ts_fields.len() ==> (#[trigger] ts_fields[i]).0 < (#[trigger] ts_fields[j]).0
}

proof fn lemma_rank_of_time(
    ts_fields: Seq<(i64, Seq<(Seq<char>, ValueView)>)>,
    timestamp: i64,
    at: int,
)
    requires
        by_time(ts_fields),
        0 <= at <= ts_fields.len(),
        forall|i: int| 0 <= i < at ==> (#[trigger] ts_fields[i]).0 < timestamp,
        at < ts_fields.len() ==> ts_fields[at].0 >= timestamp,
    ensures
        rank_of_time(ts_fields, timestamp) == at,
    decreases ts_fields.len(),
{
    if ts_fields.len() > 0 {
        let head = ts_fields.drop_last();
        assert(ts_fields[ts_fields.len() - 1] == ts_fields.last());
        assert(by_time(head)) by {
            assert forall|i: int, j: int| 0 <= i < j < head.len() implies (#[trigger] head[i]).0 < (
            #[trigger] head[j]).0 by {
                assert(head[i] == ts_fields[i] && head[j] == ts_fields[j]);
            }
        }
        let k = if at == ts_fields.len() {
            at - 1
        } else {
            at
        };
        assert forall|i: int| 0 <= i < k implies (#[trigger] head[i]).0 < timestamp by {
            assert(head[i] == ts_fields[i]);
        }
        if k < head.len() {
            assert(head[k] == ts_fields[k]);
        }
        lemma_rank_of_time(head, timestamp, k);
    }
}

/// The fields of a series, time by time.
pub open spec fn time_views(ts_fields: Seq<(TimestampMs, ValueMap)>) -> Seq<
    (i64, Seq<(Seq<char>, ValueView)>),
> {
    ts_fields.map_values(|e: (TimestampMs, ValueMap)| (e.0, e.1@))
}

/// The points of one series: those with the same tags, with the fields of
/// each time.
#[derive(Debug)]
pub struct SeriesEntry {
    tags: ValueMap,
    ts_fields: Vec<(TimestampMs, ValueMap)>,
}

impl View for SeriesEntry {
    type V = SeriesView;

    closed spec fn view(&self) -> SeriesView {
        SeriesView { tags: self.tags@, ts_fields: time_views(self.ts_fields@) }
    }
}

impl SeriesEntry {
    #[verifier::type_invariant]
    pub closed spec fn wf(self) -> bool {
        by_time(time_views(self.ts_fields@))
    }

    fn new(tags: ValueMap) -> (r: Self)
        ensures
            r@.tags == tags@,
            r@.ts_fields.len() == 0,
    {
        SeriesEntry { tags, ts_fields: Vec::new() }
    }

    /// Puts the fields at the time, in place of what was at that time.
    fn insert(&mut self, timestamp: TimestampMs, fields: ValueMap)
        ensures
            final(self)@.tags == old(self)@.tags,
            final(self)@.ts_fields == with_fields(old(self)@.ts_fields, timestamp, fields@),
    {
        proof {
            use_type_invariant(&*self);
        }
        let ghost before = time_views(self.ts_fields@);
        let ghost fields_view = fields@;
        let mut entries: Vec<(TimestampMs, ValueMap)> = Vec::new();
        core::mem::swap(&mut entries, &mut self.ts_fields);
        let mut at: usize = 0;
        while at < entries.len() && entries[at].0 < timestamp
            invariant
                at <= entries@.len(),
                before == time_views(entries@),
                forall|i: int| 0 <= i < at ==> (#[trigger] before[i]).0 < timestamp,
            decreases entries@.len() - at,
        {
            at += 1;
        }
        proof {
            lemma_rank_of_time(before, timestamp, at as int);
        }
        if at < entries.len() && entries[at].0 == timestamp {
            entries[at].1 = fields;
            let ghost after = time_views(entries@);
            assert(after =~= with_fields(before, timestamp, fields_view));
            assert(by_time(after)) by {
                assert forall|i: int, j: int| 0 <= i < j < after.len() implies (
                #[trigger] after[i]).0 < (#[trigger] after[j]).0 by {
                    assert(after[i].0 == before[i].0 && after[j].0 == before[j].0);
                }
            }
        } else {
            entries.insert(at, (timestamp, fields));
            let ghost after = time_views(entries@);
            assert(after =~= with_fields(before, timestamp, fields_view));
            assert(by_time(after)) by {
                assert forall|i: int, j: int| 0 <= i < j < after.len() implies (
                #[trigger] after[i]).0 < (#[trigger] after[j]).0 by {
                    let i0 = if i < at { i } else { i - 1 };
                    let j0 = if j < at { j } else { j - 1 };
                    if i != at {
                        assert(after[i] == before[i0]);
                    }
                    if j != at {
                        assert(after[j] == before[j0]);
                    }
                    if i == at && j0 > at {
                        assert(before[at as int].0 < before[j0].0);
                    }
                }
            }
        }
        self.ts_fields = entries;
    }
}

/// The views of the series.
pub open spec fn series_views(series: Seq<SeriesEntry>) -> Seq<SeriesView> {
    series.map_values(|s: SeriesEntry| s@)
}

/// The index of the series with the given key.
pub open spec fn series_index(series: Seq<SeriesView>, key: Seq<u8>) -> Option<int>
    decreases series.len(),
{
    if series.len() == 0 {
        None
    } else {
        match series_index(series.drop_last(), key) {
            Some(i) => Some(i),
            None => if tags_key(series.last().tags) == key {
                Some(series.len() - 1)
            } else {
                None
            },
        }
    }
}

proof fn lemma_series_is_kept(series: Seq<SeriesView>, k: int, key: Seq<u8>)
    requires
        0 <= k <= series.len(),
        series_index(series.take(k), key) is Some,
    ensures
        series_index(series, key) == series_index(series.take(k), key),
    decreases series.len() - k,
{
    if k < series.len() {
        assert(series.take(k + 1).drop_last() == series.take(k));
        lemma_series_is_kept(series, k + 1, key);
    } else {
        assert(series.take(k) == series);
    }
}

proof fn lemma_series_index(series: Seq<SeriesView>, key: Seq<u8>)
    ensures
        series_index(series, key) matches Some(i) ==> 0 <= i < series.len(),
    decreases series.len(),
{
    if series.len() > 0 {
        lemma_series_index(series.drop_last(), key);
    }
}

/// The series with one more point: its fields go to the series with the key
/// of its tags, at its time; where no series has that key, the point opens
/// one.
pub open spec fn with_series_point(series: Seq<SeriesView>, point: Point) -> Seq<SeriesView> {
    match series_index(series, tags_key(point.tags@)) {
        Some(i) => series.update(
            i,
            SeriesView {
                tags: series[i].tags,
                ts_fields: with_fields(series[i].ts_fields, point.timestamp, point.fields@),
            },
        ),
        None => series.push(
            SeriesView {
                tags: point.tags@,
                ts_fields: with_fields(Seq::empty(), point.timestamp, point.fields@),
            },
        ),
    }
}

/// The series of the points of a table.
pub open spec fn series_of(points: Seq<Point>) -> Seq<SeriesView>
    decreases points.len(),
{
    if points.len() == 0 {
        Seq::empty()
    } else {
        with_series_point(series_of(points.drop_last()), points.last())
    }
}

/// The dictionary with one more name, unless it holds the name.
pub open spec fn dict_with(names: Seq<Seq<char>>, name: Seq<char>) -> Seq<Seq<char>> {
    if names.contains(name) {
        names
    } else {
        names.push(name)
    }
}

/// The dictionary once the names were looked up in it, one after the other.
pub open spec fn dict_after(names: Seq<Seq<char>>, used: Seq<Seq<char>>) -> Seq<Seq<char>>
    decreases used.len(),
{
    if used.len() == 0 {
        names
    } else {
        dict_with(dict_after(names, used.drop_last()), used.last())
    }
}

/// The place of a name in the dictionary.
pub open spec fn place(names: Seq<Seq<char>>, name: Seq<char>) -> int
    decreases names.len(),
{
    if names.len() == 0 {
        -1
    } else {
        let before = place(names.drop_last(), name);
        if before >= 0 {
            before
        } else if names.last() == name {
            names.len() - 1
        } else {
            -1
        }
    }
}

/// The names of the entries.
pub open spec fn entry_names(entries: Seq<(Seq<char>, ValueView)>) -> Seq<Seq<char>> {
    entries.map_values(|e: (Seq<char>, ValueView)| e.0)
}

/// `out` holds the values of the entries, each with the place of its name
/// in the dictionary, cut to 32 bits.
pub open spec fn encoded(
    out: Seq<NamedValue>,
    entries: Seq<(Seq<char>, ValueView)>,
    dict: Seq<Seq<char>>,
) -> bool {
    &&& out.len() == entries.len()
    &&& forall|t: int| 0 <= t < out.len() ==> (#[trigger] out[t]).value@ == entries[t].1
    &&& forall|t: int| 0 <= t < out.len() ==> dict.contains(entries[t].0) && (#[trigger] out[t]).name_index
        == place(dict, entries[t].0) as u32
}

/// `names` begins with `first`.
pub open spec fn begins_with(names: Seq<Seq<char>>, first: Seq<Seq<char>>) -> bool {
    first.len() <= names.len() && names.take(first.len() as int) == first
}

/// The place of a name is that of its first occurrence.
pub proof fn lemma_place(names: Seq<Seq<char>>, name: Seq<char>)
    ensures
        names.contains(name) <==> place(names, name) >= 0,
        place(names, name) >= 0 ==> place(names, name) < names.len() && names[place(names, name)]
            == name,
        place(names, name) >= -1,
    decreases names.len(),
{
    if names.len() > 0 {
        let head = names.drop_last();
        lemma_place(head, name);
        if head.contains(name) {
            let j = choose|j: int| 0 <= j < head.len() && head[j] == name;
            assert(names[j] == name);
        }
        if names.contains(name) && names.last() != name {
            let j = choose|j: int| 0 <= j < names.len() && names[j] == name;
            assert(head[j] == name);
        }
        if names.last() == name {
            assert(names[names.len() - 1] == name);
        }
        if place(head, name) >= 0 {
            assert(names[place(head, name)] == head[place(head, name)]);
        }
    }
}

/// A name keeps its place when the dictionary grows.
pub proof fn lemma_place_is_kept(names: Seq<Seq<char>>, first: Seq<Seq<char>>, name: Seq<char>)
    requires
        begins_with(names, first),
        first.contains(name),
    ensures
        names.contains(name),
        place(names, name) == place(first, name),
    decreases names.len() - first.len(),
{
    lemma_place(first, name);
    if first.len() < names.len() {
        let more = names.take(first.len() as int + 1);
        assert(more.drop_last() == first);
        assert(begins_with(names, more)) by {}
        assert(more.contains(name)) by {
            assert(more[place(first, name)] == first[place(first, name)]);
        }
        lemma_place_is_kept(names, more, name);
    } else {
        assert(names.take(first.len() as int) == names);
    }
}

/// A dictionary grows at its end.
pub proof fn lemma_dict_grows(names: Seq<Seq<char>>, used: Seq<Seq<char>>)
    ensures
        begins_with(dict_after(names, used), names),
        forall|i: int| 0 <= i < used.len() ==> dict_after(names, used).contains(#[trigger] used[i]),
    decreases used.len(),
{
    if used.len() == 0 {
        assert(names.take(names.len() as int) == names);
    } else {
        let head = used.drop_last();
        lemma_dict_grows(names, head);
        let before = dict_after(names, head);
        let now = dict_after(names, used);
        assert(now.take(names.len() as int) =~= before.take(names.len() as int));
        assert forall|i: int| 0 <= i < used.len() implies now.contains(#[trigger] used[i]) by {
            if i < head.len() {
                assert(head[i] == used[i]);
                let j = choose|j: int| 0 <= j < before.len() && before[j] == used[i];
                assert(now[j] == used[i]);
            } else if !before.contains(used.last()) {
                assert(now[before.len() as int] == used[i]);
            } else {
                assert(used[i] == used.last());
            }
        }
    }
}

/// Looking names up one list after another is looking up the lists joined.
pub proof fn lemma_dict_after_joined(names: Seq<Seq<char>>, a: Seq<Seq<char>>, b: Seq<Seq<char>>)
    ensures
        dict_after(names, a + b) == dict_after(dict_after(names, a), b),
    decreases b.len(),
{
    if b.len() == 0 {
        assert(a + b == a);
    } else {
        assert((a + b).drop_last() == a + b.drop_last());
        assert((a + b).last() == b.last());
        lemma_dict_after_joined(names, a, b.drop_last());
    }
}

/// What was encoded stays encoded when the dictionary grows.
pub proof fn lemma_encoded_is_kept(
    out: Seq<NamedValue>,
    entries: Seq<(Seq<char>, ValueView)>,
    dict: Seq<Seq<char>>,
    grown: Seq<Seq<char>>,
)
    requires
        encoded(out, entries, dict),
        begins_with(grown, dict),
    ensures
        encoded(out, entries, grown),
{
    assert forall|t: int| 0 <= t < out.len() implies grown.contains(entries[t].0) && (
    #[trigger] out[t]).name_index == place(grown, entries[t].0) as u32 by {
        assert(dict.contains(entries[t].0));
        lemma_place_is_kept(grown, dict, entries[t].0);
    }
}

/// Struct helps to convert names to their places among the names of a
/// table.
pub struct NameDict {
    names: Vec<String>,
}

impl NameDict {
    /// The names, each at its place.
    pub closed spec fn names(&self) -> Seq<Seq<char>> {
        crate::model::route::names(self.names@)
    }

    pub fn new() -> (r: Self)
        ensures
            r.names().len() == 0,
    {
        NameDict { names: Vec::new() }
    }

    /// The place of the name, which is put at the end unless the dictionary
    /// holds it.
    pub fn insert(&mut self, name: String) -> (r: u32)
        ensures
            final(self).names() == dict_with(old(self).names(), name@),
            r == place(final(self).names(), name@) as u32,
    {
        let ghost all = self.names();
        let mut i: usize = 0;
        while i < self.names.len()
            invariant
                i <= self.names@.len(),
                all == self.names(),
                *self == *old(self),
                place(all.take(i as int), name@) == -1,
            decreases self.names@.len() - i,
        {
            proof {
                assert(all.take(i + 1).drop_last() == all.take(i as int));
                assert(all.take(i + 1).last() == self.names@[i as int]@);
            }
            if self.names[i] == name {
                proof {
                    lemma_place(all, name@);
                    lemma_place(all.take(i + 1), name@);
                    assert(begins_with(all, all.take(i + 1))) by {
                        assert(all.take(all.take(i + 1).len() as int) == all.take(i + 1));
                    }
                    lemma_place_is_kept(all, all.take(i + 1), name@);
                }
                return #[verifier::truncate] (i as u32);
            }
            i += 1;
        }
        proof {
            assert(all.take(i as int) == all);
            lemma_place(all, name@);
        }
        let ghost name_view = name@;
        self.names.push(name);
        proof {
            let now = self.names();
            assert(now =~= all.push(name_view));
            assert(now.drop_last() == all);
        }
        #[verifier::truncate] (i as u32)
    }

    /// The names, each at its place.
    pub fn convert_ordered(self) -> (r: Vec<String>)
        ensures
            crate::model::route::names(r@) == self.names(),
    {
        self.names
    }
}

/// The names of the tags of the series, series after series.
pub open spec fn used_tags(series: Seq<SeriesView>) -> Seq<Seq<char>>
    decreases series.len(),
{
    if series.len() == 0 {
        Seq::empty()
    } else {
        used_tags(series.drop_last()) + entry_names(series.last().tags)
    }
}

/// The names of the fields of a series, time after time.
pub open spec fn used_fields_in(ts_fields: Seq<(i64, Seq<(Seq<char>, ValueView)>)>) -> Seq<
    Seq<char>,
>
    decreases ts_fields.len(),
{
    if ts_fields.len() == 0 {
        Seq::empty()
    } else {
        used_fields_in(ts_fields.drop_last()) + entry_names(ts_fields.last().1)
    }
}

/// The names of the fields of the series, series after series.
pub open spec fn used_fields(series: Seq<SeriesView>) -> Seq<Seq<char>>
    decreases series.len(),
{
    if series.len() == 0 {
        Seq::empty()
    } else {
        used_fields(series.drop_last()) + used_fields_in(series.last().ts_fields)
    }
}

/// `groups` hold the fields of each time, encoded with the dictionary.
pub open spec fn groups_encoded(
    groups: Seq<FieldGroup>,
    ts_fields: Seq<(i64, Seq<(Seq<char>, ValueView)>)>,
    dict: Seq<Seq<char>>,
) -> bool {
    &&& groups.len() == ts_fields.len()
    &&& forall|g: int| 0 <= g < groups.len() ==> (#[trigger] groups[g]).timestamp == ts_fields[g].0
    &&& forall|g: int|
        0 <= g < groups.len() ==> encoded((#[trigger] groups[g]).fields@, ts_fields[g].1, dict)
}

/// `entry` holds the series, encoded with the two dictionaries.
pub open spec fn series_encoded(
    entry: WriteSeriesEntry,
    series: SeriesView,
    tag_names: Seq<Seq<char>>,
    field_names: Seq<Seq<char>>,
) -> bool {
    &&& encoded(entry.tags@, series.tags, tag_names)
    &&& groups_encoded(entry.field_groups@, series.ts_fields, field_names)
}

/// `request` holds the series of a table as they go over the wire: the
/// names of tags and of fields in the order in which the series use them
/// first, and each series with its tags and its fields, time by time, each
/// value under the place of its name.
pub open spec fn table_encoded(
    request: WriteTableRequest,
    table: Seq<char>,
    series: Seq<SeriesView>,
) -> bool {
    let tag_names = crate::model::route::names(request.tag_names@);
    let field_names = crate::model::route::names(request.field_names@);
    &&& request.table@ == table
    &&& tag_names == dict_after(Seq::empty(), used_tags(series))
    &&& field_names == dict_after(Seq::empty(), used_fields(series))
    &&& request.entries@.len() == series.len()
    &&& forall|e: int|
        0 <= e < series.len() ==> series_encoded(
            #[trigger] request.entries@[e],
            series[e],
            tag_names,
            field_names,
        )
}

fn encode_entries(dict: &mut NameDict, entries: ValueMap) -> (out: Vec<NamedValue>)
    ensures
        final(dict).names() == dict_after(old(dict).names(), entry_names(entries@)),
        encoded(out@, entries@, final(dict).names()),
{
    let ghost all = entries@;
    let ghost start = dict.names();
    let pairs = entries.entries();
    let mut out: Vec<NamedValue> = Vec::new();
    let mut t: usize = 0;
    while t < pairs.len()
        invariant
            t <= pairs@.len(),
            all == entry_views(pairs@),
            dict.names() == dict_after(start, entry_names(all).take(t as int)),
            encoded(out@, all.take(t as int), dict.names()),
        decreases pairs@.len() - t,
    {
        let ghost dict_before = dict.names();
        let ghost out_before = out@;
        proof {
            let names = entry_names(all);
            assert(names.take(t + 1).drop_last() == names.take(t as int));
            assert(names.take(t + 1).last() == all[t as int].0);
        }
        let name_index = dict.insert(pairs[t].0.clone());
        out.push(NamedValue { name_index, value: pairs[t].1.clone() });
        proof {
            let grown = dict.names();
            assert(begins_with(grown, dict_before)) by {
                assert(grown.take(dict_before.len() as int) =~= dict_before);
            }
            lemma_encoded_is_kept(out_before, all.take(t as int), dict_before, grown);
            lemma_place(grown, all[t as int].0);
            assert(grown.contains(all[t as int].0)) by {
                if dict_before.contains(all[t as int].0) {
                    let j = choose|j: int|
                        0 <= j < dict_before.len() && dict_before[j] == all[t as int].0;
                    assert(grown[j] == all[t as int].0);
                } else {
                    assert(grown[dict_before.len() as int] == all[t as int].0);
                }
            }
            assert(encoded(out@, all.take(t + 1), grown)) by {
                assert forall|k: int| 0 <= k < out@.len() implies (#[trigger] out@[k]).value@
                    == all.take(t + 1)[k].1 by {
                    if k < t {
                        assert(out@[k] == out_before[k]);
                        assert(all.take(t + 1)[k] == all.take(t as int)[k]);
                    }
                }
                assert forall|k: int| 0 <= k < out@.len() implies grown.contains(
                    all.take(t + 1)[k].0,
                ) && (#[trigger] out@[k]).name_index == place(grown, all.take(t + 1)[k].0)
                    as u32 by {
                    if k < t {
                        assert(out@[k] == out_before[k]);
                        assert(all.take(t + 1)[k] == all.take(t as int)[k]);
                    }
                }
            }
        }
        t += 1;
    }
    proof {
        assert(all.take(t as int) == all);
        assert(entry_names(all).take(t as int) == entry_names(all));
    }
    out
}

/// The builder of what goes over the wire for one table.
pub struct TableRequestPbBuilder {
    table: String,
    series_entires: Vec<SeriesEntry>,
}

impl TableRequestPbBuilder {
    /// The table.
    pub closed spec fn table(&self) -> Seq<char> {
        self.table@
    }

    /// The series of the points.
    pub closed spec fn series(&self) -> Seq<SeriesView> {
        series_views(self.series_entires@)
    }

    /// Groups the points of a table into series: points with the same key
    /// of tags make one series, in which a later point takes the place of
    /// an earlier one of the same time.
    pub fn new(table: String, points: Vec<Point>) -> (r: Self)
        requires
            forall|k: int| 0 <= k < points@.len() ==> (#[trigger] points@[k]).table@ == table@,
        ensures
            r.table() == table@,
            r.series() == series_of(points@),
    {
        // Partition points according to tags and build [WriteSeriesEntry].
        let ghost all = points@;
        let mut series_entries_by_tags: Vec<SeriesEntry> = Vec::new();
        for point in it: points.into_iter()
            invariant
                it.seq() == all,
                series_views(series_entries_by_tags@) == series_of(all.take(it.index())),
        {
            let ghost k = it.index();
            let ghost before = series_views(series_entries_by_tags@);
            proof {
                assert(all.take(k + 1).drop_last() == all.take(k));
                assert(all.take(k + 1).last() == point);
                lemma_series_index(before, tags_key(point.tags@));
            }
            let tags_key = make_tags_key(&point.tags);
            let Point { table: _, timestamp, tags, fields } = point;
            match find_series(&series_entries_by_tags, &tags_key) {
                Some(i) => {
                    let ghost entries_before = series_entries_by_tags@;
                    series_entries_by_tags[i].insert(timestamp, fields);
                    proof {
                        let now = series_views(series_entries_by_tags@);
                        let want = with_series_point(before, point);
                        assert(before[i as int] == entries_before[i as int]@);
                        assert(now.len() == want.len());
                        assert forall|j: int| 0 <= j < now.len() implies now[j] == want[j] by {
                            assert(now[j] == series_entries_by_tags@[j]@);
                            if j != i {
                                assert(series_entries_by_tags@[j] == entries_before[j]);
                                assert(before[j] == entries_before[j]@);
                            }
                        }
                        assert(now =~= want);
                    }
                },
                None => {
                    let mut series_entry = SeriesEntry::new(tags);
                    assert(series_entry@.ts_fields =~= Seq::empty());
                    series_entry.insert(timestamp, fields);
                    let ghost opened = series_entry@;
                    series_entries_by_tags.push(series_entry);
                    proof {
                        let now = series_views(series_entries_by_tags@);
                        let want = with_series_point(before, point);
                        assert(opened == want[before.len() as int]);
                        assert(now =~= before.push(opened));
                        assert(now =~= want);
                    }
                },
            }
        }
        assert(all.take(all.len() as int) == all);
        Self { table, series_entires: series_entries_by_tags }
    }

    /// The series as they go over the wire.
    pub fn build(self) -> (r: WriteTableRequest)
        ensures
            table_encoded(r, self.table(), self.series()),
    {
        let TableRequestPbBuilder { table, series_entires } = self;
        let ghost all = series_views(series_entires@);
        let mut tags_dict = NameDict::new();
        let mut fields_dict = NameDict::new();
        let mut wirte_entries_pb: Vec<WriteSeriesEntry> = Vec::new();
        assert(tags_dict.names() =~= Seq::<Seq<char>>::empty());
        assert(fields_dict.names() =~= Seq::<Seq<char>>::empty());
        for entry in it: series_entires.into_iter()
            invariant
                series_views(it.seq()) == all,
                tags_dict.names() == dict_after(Seq::empty(), used_tags(all.take(it.index()))),
                fields_dict.names() == dict_after(
                    Seq::empty(),
                    used_fields(all.take(it.index())),
                ),
                wirte_entries_pb@.len() == it.index(),
                forall|e: int|
                    0 <= e < it.index() ==> series_encoded(
                        #[trigger] wirte_entries_pb@[e],
                        all[e],
                        tags_dict.names(),
                        fields_dict.names(),
                    ),
        {
            let ghost k = it.index();
            let ghost tags_before = tags_dict.names();
            let ghost fields_before = fields_dict.names();
            let ghost done = wirte_entries_pb@;
            proof {
                assert(entry@ == all[k]);
                assert(all.take(k + 1).drop_last() == all.take(k));
                assert(all.take(k + 1).last() == entry@);
                lemma_dict_after_joined(
                    Seq::empty(),
                    used_tags(all.take(k)),
                    entry_names(entry@.tags),
                );
                lemma_dict_after_joined(
                    Seq::empty(),
                    used_fields(all.take(k)),
                    used_fields_in(entry@.ts_fields),
                );
            }
            let pb = Self::build_series_entry(&mut tags_dict, &mut fields_dict, entry);
            wirte_entries_pb.push(pb);
            proof {
                lemma_dict_grows(tags_before, entry_names(entry@.tags));
                lemma_dict_grows(fields_before, used_fields_in(entry@.ts_fields));
                assert forall|e: int| 0 <= e < k + 1 implies series_encoded(
                    #[trigger] wirte_entries_pb@[e],
                    all[e],
                    tags_dict.names(),
                    fields_dict.names(),
                ) by {
                    if e < k {
                        assert(wirte_entries_pb@[e] == done[e]);
                        lemma_encoded_is_kept(
                            done[e].tags@,
                            all[e].tags,
                            tags_before,
                            tags_dict.names(),
                        );
                        lemma_groups_encoded_are_kept(
                            done[e].field_groups@,
                            all[e].ts_fields,
                            fields_before,
                            fields_dict.names(),
                        );
                    }
                }
            }
        }
        assert(all.take(all.len() as int) == all);
        WriteTableRequest {
            table,
            tag_names: tags_dict.convert_ordered(),
            field_names: fields_dict.convert_ordered(),
            entries: wirte_entries_pb,
        }
    }

    fn build_series_entry(
        tags_dict: &mut NameDict,
        fields_dict: &mut NameDict,
        entry: SeriesEntry,
    ) -> (r: WriteSeriesEntry)
        ensures
            final(tags_dict).names() == dict_after(
                old(tags_dict).names(),
                entry_names(entry@.tags),
            ),
            final(fields_dict).names() == dict_after(
                old(fields_dict).names(),
                used_fields_in(entry@.ts_fields),
            ),
            series_encoded(r, entry@, final(tags_dict).names(), final(fields_dict).names()),
    {
        let SeriesEntry { tags, ts_fields } = entry;
        let tags = Self::build_tags(tags_dict, tags);
        let field_groups = Self::build_ts_fields(fields_dict, ts_fields);
        WriteSeriesEntry { tags, field_groups }
    }

    fn build_tags(tags_dict: &mut NameDict, tags: ValueMap) -> (r: Vec<Tag>)
        ensures
            final(tags_dict).names() == dict_after(old(tags_dict).names(), entry_names(tags@)),
            encoded(r@, tags@, final(tags_dict).names()),
    {
        encode_entries(tags_dict, tags)
    }

    fn build_ts_fields(fields_dict: &mut NameDict, ts_fields: Vec<(TimestampMs, ValueMap)>) -> (r:
        Vec<FieldGroup>)
        ensures
            final(fields_dict).names() == dict_after(
                old(fields_dict).names(),
                used_fields_in(time_views(ts_fields@)),
            ),
            groups_encoded(r@, time_views(ts_fields@), final(fields_dict).names()),
    {
        let ghost all = time_views(ts_fields@);
        let ghost start = fields_dict.names();
        let mut field_group_pbs: Vec<FieldGroup> = Vec::new();
        for ts_and_fields in it: ts_fields.into_iter()
            invariant
                time_views(it.seq()) == all,
                fields_dict.names() == dict_after(start, used_fields_in(all.take(it.index()))),
                groups_encoded(field_group_pbs@, all.take(it.index()), fields_dict.names()),
        {
            let ghost k = it.index();
            let ghost before = fields_dict.names();
            let ghost done = field_group_pbs@;
            let (ts, fields) = ts_and_fields;
            proof {
                assert(all[k] == (ts, fields@));
                assert(all.take(k + 1).drop_last() == all.take(k));
                assert(all.take(k + 1).last() == all[k]);
                lemma_dict_after_joined(
                    start,
                    used_fields_in(all.take(k)),
                    entry_names(fields@),
                );
                lemma_dict_grows(before, entry_names(fields@));
            }
            // Ts + fields will be converted to field group in pb.
            let field_pbs = encode_entries(fields_dict, fields);
            // Collect field group.
            field_group_pbs.push(FieldGroup { timestamp: ts, fields: field_pbs });
            proof {
                lemma_groups_encoded_are_kept(done, all.take(k), before, fields_dict.names());
                let now = field_group_pbs@;
                assert(groups_encoded(now, all.take(k + 1), fields_dict.names())) by {
                    assert forall|g: int| 0 <= g < now.len() implies (#[trigger] now[g]).timestamp
                        == all.take(k + 1)[g].0 by {
                        if g < k {
                            assert(now[g] == done[g]);
                            assert(all.take(k + 1)[g] == all.take(k)[g]);
                        }
                    }
                    assert forall|g: int| 0 <= g < now.len() implies encoded(
                        (#[trigger] now[g]).fields@,
                        all.take(k + 1)[g].1,
                        fields_dict.names(),
                    ) by {
                        if g < k {
                            assert(now[g] == done[g]);
                            assert(all.take(k + 1)[g] == all.take(k)[g]);
                        }
                    }
                }
            }
        }
        assert(all.take(all.len() as int) == all);
        field_group_pbs
    }
}

/// The groups that were encoded stay encoded when the dictionary grows.
pub proof fn lemma_groups_encoded_are_kept(
    groups: Seq<FieldGroup>,
    ts_fields: Seq<(i64, Seq<(Seq<char>, ValueView)>)>,
    dict: Seq<Seq<char>>,
    grown: Seq<Seq<char>>,
)
    requires
        groups_encoded(groups, ts_fields, dict),
        begins_with(grown, dict),
    ensures
        groups_encoded(groups, ts_fields, grown),
{
    assert forall|g: int| 0 <= g < groups.len() implies encoded(
        (#[trigger] groups[g]).fields@,
        ts_fields[g].1,
        grown,
    ) by {
        lemma_encoded_is_kept(groups[g].fields@, ts_fields[g].1, dict, grown);
    }
}

/// The index of the series with the key.
fn find_series(series: &Vec<SeriesEntry>, key: &Vec<u8>) -> (r: Option<usize>)
    ensures
        match r {
            Some(i) => series_index(series_views(series@), key@) == Some(i as int) && i
                < series@.len(),
            None => series_index(series_views(series@), key@) is None,
        },
{
    let ghost all = series_views(series@);
    let mut i: usize = 0;
    while i < series.len()
        invariant
            i <= series@.len(),
            all == series_views(series@),
            series_index(all.take(i as int), key@) is None,
        decreases series@.len() - i,
    {
        proof {
            assert(all.take(i + 1).drop_last() == all.take(i as int));
            assert(all.take(i + 1).last() == series@[i as int]@);
        }
        let candidate = make_tags_key(&series[i].tags);
        if same_bytes(&candidate, key) {
            proof {
                lemma_series_is_kept(all, i + 1, key@);
            }
            return Some(i);
        }
        i += 1;
    }
    assert(all.take(i as int) == all);
    None
}

fn same_bytes(a: &Vec<u8>, b: &Vec<u8>) -> (r: bool)
    ensures
        r == (a@ == b@),
{
    if a.len() != b.len() {
        return false;
    }
    let mut i: usize = 0;
    while i < a.len()
        invariant
            i <= a@.len(),
            a@.len() == b@.len(),
            forall|j: int| 0 <= j < i ==> a@[j] == b@[j],
        decreases a@.len() - i,
    {
        if a[i] != b[i] {
            return false;
        }
        i += 1;
    }
    assert(a@ =~= b@);
    true
}

/// `requests` hold the points of each table of a write request as they go
/// over the wire, table by table.
pub open spec fn request_encoded(
    requests: Seq<WriteTableRequest>,
    groups: Seq<(Seq<char>, Seq<Point>)>,
) -> bool {
    &&& requests.len() == groups.len()
    &&& forall|g: int|
        0 <= g < groups.len() ==> table_encoded(
            #[trigger] requests[g],
            groups[g].0,
            series_of(groups[g].1),
        )
}

/// Used to build what goes over the wire from a write request.
pub struct WriteTableRequestPbsBuilder(pub Request);

impl WriteTableRequestPbsBuilder {
    /// The points of each table as they go over the wire, table by table.
    pub fn build(self) -> (r: Vec<WriteTableRequest>)
        ensures
            request_encoded(r@, self.0@),
    {
        // Partition points by table.
        let point_group = self.0.into_point_groups();
        let ghost all = point_group@;

        // Build pb.
        let mut table_request_pbs: Vec<WriteTableRequest> = Vec::new();
        for group in it: point_group.into_iter()
            invariant
                it.seq() == all,
                grouped(group_views(all)),
                table_request_pbs@.len() == it.index(),
                forall|g: int|
                    0 <= g < it.index() ==> table_encoded(
                        #[trigger] table_request_pbs@[g],
                        group_views(all)[g].0,
                        series_of(group_views(all)[g].1),
                    ),
        {
            proof {
                let g = it.index();
                assert(group == all[g]);
                assert(group_views(all)[g] == (group.0@, group.1@));
                assert forall|k: int| 0 <= k < group.1@.len() implies (
                #[trigger] group.1@[k]).table@ == group.0@ by {
                    assert(group_views(all)[g].1[k].table@ == group_views(all)[g].0);
                }
            }
            let (table, points) = group;
            let write_table_request_pb_builder = TableRequestPbBuilder::new(table, points);
            let write_table_request_pb = write_table_request_pb_builder.build();
            table_request_pbs.push(write_table_request_pb);
        }
        table_request_pbs
    }
}

} // verus!
