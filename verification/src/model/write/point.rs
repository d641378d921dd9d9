//! Points of a write.

use vstd::prelude::*;
use crate::model::value::{Value, ValueView};

verus! {

/// The code of a character, with that of the small letter for a capital
/// ASCII letter.
pub open spec fn ascii_folded(c: char) -> int {
    if 'A' <= c && c <= 'Z' {
        c as int + 32
    } else {
        c as int
    }
}

/// The two texts are the same but for the case of ASCII letters.
pub open spec fn same_ignoring_ascii_case(a: Seq<char>, b: Seq<char>) -> bool {
    &&& a.len() == b.len()
    &&& forall|i: int| 0 <= i < a.len() ==> ascii_folded(#[trigger] a[i]) == ascii_folded(b[i])
}

/// A column of this name is kept by the database for itself.
pub open spec fn is_reserved(name: Seq<char>) -> bool {
    same_ignoring_ascii_case(name, "tsid"@) || same_ignoring_ascii_case(name, "timestamp"@)
}

fn fold_ascii(c: char) -> (r: u32)
    ensures
        r == ascii_folded(c),
{
    if c >= 'A' && c <= 'Z' {
        c as u32 + 32
    } else {
        c as u32
    }
}

fn eq_ignore_ascii_case(a: &str, b: &str) -> (r: bool)
    ensures
        r == same_ignoring_ascii_case(a@, b@),
{
    let n = a.unicode_len();
    if n != b.unicode_len() {
        return false;
    }
    let mut i: usize = 0;
    while i < n
        invariant
            i <= n,
            n == a@.len(),
            n == b@.len(),
            forall|j: int| 0 <= j < i ==> ascii_folded(#[trigger] a@[j]) == ascii_folded(b@[j]),
        decreases n - i,
    {
        if fold_ascii(a.get_char(i)) != fold_ascii(b.get_char(i)) {
            return false;
        }
        i += 1;
    }
    true
}

/// Whether a column of this name is kept by the database for itself:
/// `tsid` and `timestamp`, in any case of their letters.
pub fn is_reserved_column_name(name: &str) -> (r: bool)
    ensures
        r == is_reserved(name@),
{
    eq_ignore_ascii_case(name, "tsid") || eq_ignore_ascii_case(name, "timestamp")
}

/// The order of texts: by the first character in which they differ, and a
/// text before every text that it begins.
pub open spec fn lex_less(a: Seq<char>, b: Seq<char>) -> bool
    decreases a.len(),
{
    if b.len() == 0 {
        false
    } else if a.len() == 0 {
        true
    } else if a[0] != b[0] {
        (a[0] as int) < (b[0] as int)
    } else {
        lex_less(a.skip(1), b.skip(1))
    }
}

/// No text stands before itself.
pub proof fn lemma_lex_irreflexive(a: Seq<char>)
    ensures
        !lex_less(a, a),
    decreases a.len(),
{
    if a.len() > 0 {
        lemma_lex_irreflexive(a.skip(1));
    }
}

/// What stands before a text stands before all that the text stands before.
pub proof fn lemma_lex_transitive(a: Seq<char>, b: Seq<char>, c: Seq<char>)
    requires
        lex_less(a, b),
        lex_less(b, c),
    ensures
        lex_less(a, c),
    decreases a.len(),
{
    if a.len() > 0 && a[0] == b[0] && b[0] == c[0] {
        lemma_lex_transitive(a.skip(1), b.skip(1), c.skip(1));
    }
}

/// Of two texts that differ, one stands before the other.
pub proof fn lemma_lex_total(a: Seq<char>, b: Seq<char>)
    ensures
        a == b || lex_less(a, b) || lex_less(b, a),
    decreases a.len(),
{
    if a.len() > 0 && b.len() > 0 && a[0] == b[0] {
        lemma_lex_total(a.skip(1), b.skip(1));
        if a.skip(1) == b.skip(1) {
            assert(a =~= seq![a[0]] + a.skip(1));
            assert(b =~= seq![b[0]] + b.skip(1));
        }
    } else if a.len() == 0 && b.len() == 0 {
        assert(a =~= b);
    }
}

/// `<` on `str`: strings are ordered lexicographically by their byte values,
/// which orders them by the code points of their characters.
#[verifier::external_body]
fn str_less(a: &str, b: &str) -> (r: bool)
    ensures
        r == lex_less(a@, b@),
{
    a < b
}

/// The entries as what they stand for.
pub open spec fn entry_views(entries: Seq<(String, Value)>) -> Seq<(Seq<char>, ValueView)> {
    entries.map_values(|e: (String, Value)| (e.0@, e.1@))
}

/// The names stand in their order, each once.
pub open spec fn ascending(entries: Seq<(Seq<char>, ValueView)>) -> bool {
    forall|i: int, j: int|
        0 <= i < j < entries.len() ==> lex_less((#[trigger] entries[i]).0, (#[trigger] entries[j]).0)
}

/// The number of entries whose name stands before `name`.
pub open spec fn rank(entries: Seq<(Seq<char>, ValueView)>, name: Seq<char>) -> int
    decreases entries.len(),
{
    if entries.len() == 0 {
        0
    } else {
        rank(entries.drop_last(), name) + if lex_less(entries.last().0, name) {
            1int
        } else {
            0int
        }
    }
}

/// The entries with `value` under `name`, in place of what was under that
/// name.
pub open spec fn with_entry(
    entries: Seq<(Seq<char>, ValueView)>,
    name: Seq<char>,
    value: ValueView,
) -> Seq<(Seq<char>, ValueView)> {
    let at = rank(entries, name);
    let after = if at < entries.len() && entries[at].0 == name {
        at + 1
    } else {
        at
    };
    entries.take(at).push((name, value)) + entries.skip(after)
}

/// Among entries in ascending order, those before `name` come first.
proof fn lemma_rank(entries: Seq<(Seq<char>, ValueView)>, name: Seq<char>, at: int)
    requires
        ascending(entries),
        0 <= at <= entries.len(),
        forall|i: int| 0 <= i < at ==> lex_less((#[trigger] entries[i]).0, name),
        at < entries.len() ==> !lex_less(entries[at].0, name),
    ensures
        rank(entries, name) == at,
    decreases entries.len(),
{
    if entries.len() > 0 {
        let head = entries.drop_last();
        let last = entries.last();
        assert(entries[entries.len() - 1] == last);
        assert(ascending(head)) by {
            assert forall|i: int, j: int| 0 <= i < j < head.len() implies lex_less(
                (#[trigger] head[i]).0,
                (#[trigger] head[j]).0,
            ) by {
                assert(head[i] == entries[i] && head[j] == entries[j]);
            }
        }
        if at == entries.len() {
            assert forall|i: int| 0 <= i < at - 1 implies lex_less(
                (#[trigger] head[i]).0,
                name,
            ) by {
                assert(head[i] == entries[i]);
            }
            lemma_rank(head, name, at - 1);
        } else {
            assert forall|i: int| 0 <= i < at implies lex_less((#[trigger] head[i]).0, name) by {
                assert(head[i] == entries[i]);
            }
            if at < head.len() {
                assert(head[at] == entries[at]);
            }
            lemma_rank(head, name, at);
            if lex_less(last.0, name) {
                // `entries[at]` stands before the last entry, or is it.
                if at < entries.len() - 1 {
                    lemma_lex_transitive(entries[at].0, last.0, name);
                }
            }
        }
    }
}

/// Values by name, in the order of the names. A name has one value.
#[derive(Debug, PartialEq)]
pub struct ValueMap {
    entries: Vec<(String, Value)>,
}

impl View for ValueMap {
    type V = Seq<(Seq<char>, ValueView)>;

    closed spec fn view(&self) -> Seq<(Seq<char>, ValueView)> {
        entry_views(self.entries@)
    }
}

impl Clone for ValueMap {
    fn clone(&self) -> (r: Self)
        ensures
            r@ == self@,
    {
        proof {
            use_type_invariant(self);
        }
        let mut entries: Vec<(String, Value)> = Vec::new();
        let mut i: usize = 0;
        while i < self.entries.len()
            invariant
                i <= self.entries@.len(),
                entry_views(entries@) == entry_views(self.entries@).take(i as int),
            decreases self.entries@.len() - i,
        {
            let ghost before = entry_views(entries@);
            entries.push((self.entries[i].0.clone(), self.entries[i].1.clone()));
            assert(entry_views(entries@) =~= before.push(entry_views(self.entries@)[i as int]));
            i += 1;
        }
        assert(entry_views(self.entries@).take(i as int) == entry_views(self.entries@));
        proof {
            assert(ascending(entry_views(entries@)));
        }
        ValueMap { entries }
    }
}

impl Default for ValueMap {
    fn default() -> (r: Self)
        ensures
            r@.len() == 0,
    {
        ValueMap::new()
    }
}

impl ValueMap {
    #[verifier::type_invariant]
    pub closed spec fn wf(self) -> bool {
        ascending(entry_views(self.entries@))
    }

    pub fn new() -> (r: Self)
        ensures
            r@.len() == 0,
    {
        ValueMap { entries: Vec::new() }
    }

    /// The entries stand in the order of their names.
    pub fn entries(&self) -> (r: &Vec<(String, Value)>)
        ensures
            entry_views(r@) == self@,
            ascending(self@),
    {
        proof {
            use_type_invariant(self);
        }
        &self.entries
    }

    pub fn len(&self) -> (r: usize)
        ensures
            r == self@.len(),
    {
        self.entries.len()
    }

    pub fn is_empty(&self) -> (r: bool)
        ensures
            r == (self@.len() == 0),
    {
        self.entries.len() == 0
    }

    /// Puts the value under the name, in place of what was under it.
    pub fn insert(&mut self, name: String, value: Value)
        ensures
            final(self)@ == with_entry(old(self)@, name@, value@),
            ascending(final(self)@),
    {
        proof {
            use_type_invariant(&*self);
        }
        let ghost before = entry_views(self.entries@);
        let mut entries: Vec<(String, Value)> = Vec::new();
        core::mem::swap(&mut entries, &mut self.entries);
        let mut at: usize = 0;
        while at < entries.len() && str_less(entries[at].0.as_str(), name.as_str())
            invariant
                at <= entries@.len(),
                before == entry_views(entries@),
                forall|i: int| 0 <= i < at ==> lex_less((#[trigger] before[i]).0, name@),
            decreases entries@.len() - at,
        {
            at += 1;
        }
        proof {
            lemma_rank(before, name@, at as int);
        }
        let ghost name_view = name@;
        let ghost value_view = value@;
        if at < entries.len() && entries[at].0 == name {
            entries[at].1 = value;
            assert(entry_views(entries@) =~= with_entry(before, name_view, value_view));
            assert(ascending(entry_views(entries@))) by {
                assert forall|i: int, j: int| 0 <= i < j < entries@.len() implies lex_less(
                    (#[trigger] entry_views(entries@)[i]).0,
                    (#[trigger] entry_views(entries@)[j]).0,
                ) by {
                    assert(entry_views(entries@)[i].0 == before[i].0);
                    assert(entry_views(entries@)[j].0 == before[j].0);
                }
            }
        } else {
            entries.insert(at, (name, value));
            let ghost after = entry_views(entries@);
            assert(after =~= with_entry(before, name_view, value_view));
            assert(ascending(after)) by {
                if at < before.len() {
                    lemma_lex_total(before[at as int].0, name_view);
                }
                assert forall|i: int, j: int| 0 <= i < j < after.len() implies lex_less(
                    (#[trigger] after[i]).0,
                    (#[trigger] after[j]).0,
                ) by {
                    if j < at {
                        assert(after[i] == before[i] && after[j] == before[j]);
                    } else if j == at {
                        assert(after[i] == before[i]);
                    } else if i == at {
                        assert(after[j] == before[j - 1]);
                        if j - 1 > at {
                            lemma_lex_transitive(name_view, before[at as int].0, before[j - 1].0);
                        }
                    } else if i < at {
                        assert(after[i] == before[i] && after[j] == before[j - 1]);
                    } else {
                        assert(after[i] == before[i - 1] && after[j] == before[j - 1]);
                    }
                }
            }
        }
        self.entries = entries;
    }
}

/// One point in a write request.
#[derive(Debug, PartialEq)]
pub struct Point {
    pub table: String,
    pub timestamp: i64,
    pub tags: ValueMap,
    pub fields: ValueMap,
}

impl Clone for Point {
    fn clone(&self) -> (r: Self)
        ensures
            r.table == self.table,
            r.timestamp == self.timestamp,
            r.tags@ == self.tags@,
            r.fields@ == self.fields@,
    {
        Point {
            table: self.table.clone(),
            timestamp: self.timestamp,
            tags: self.tags.clone(),
            fields: self.fields.clone(),
        }
    }
}

/// The text of the error for a point with a reserved name.
pub const RESERVED_NAME: &'static str = "Tag or field name reserved column name in horaedb";

/// The text of the error for a point without fields.
pub const NO_FIELDS: &'static str = "Fields should not be empty";

/// The text of the error for a point without timestamp.
pub const NO_TIMESTAMP: &'static str = "Timestamp must be set";

/// Builder for building a point.
#[derive(Debug)]
pub struct PointBuilder {
    table: String,
    timestamp: Option<i64>,
    // tags' traversing should have definite order
    tags: ValueMap,
    fields: ValueMap,
    contains_reserved_column_name: bool,
}

impl PointBuilder {
    pub closed spec fn table_name(self) -> Seq<char> {
        self.table@
    }

    pub closed spec fn time(self) -> Option<i64> {
        self.timestamp
    }

    pub closed spec fn tags(self) -> Seq<(Seq<char>, ValueView)> {
        self.tags@
    }

    pub closed spec fn fields(self) -> Seq<(Seq<char>, ValueView)> {
        self.fields@
    }

    /// A tag or a field was given a reserved name.
    pub closed spec fn reserved(self) -> bool {
        self.contains_reserved_column_name
    }

    pub fn new(table: String) -> (r: Self)
        ensures
            r.table_name() == table@,
            r.time() is None,
            r.tags().len() == 0,
            r.fields().len() == 0,
            !r.reserved(),
    {
        Self {
            table,
            timestamp: None,
            tags: ValueMap::new(),
            fields: ValueMap::new(),
            contains_reserved_column_name: false,
        }
    }

    /// Set the table name for the point.
    pub fn table(self, table: String) -> (r: Self)
        ensures
            r.table_name() == table@,
            r.time() == self.time(),
            r.tags() == self.tags(),
            r.fields() == self.fields(),
            r.reserved() == self.reserved(),
    {
        let mut builder = self;
        builder.table = table;
        builder
    }

    /// Set the timestamp for the point.
    pub fn timestamp(self, timestamp: i64) -> (r: Self)
        ensures
            r.time() == Some(timestamp),
            r.table_name() == self.table_name(),
            r.tags() == self.tags(),
            r.fields() == self.fields(),
            r.reserved() == self.reserved(),
    {
        let mut builder = self;
        builder.timestamp = Some(timestamp);
        builder
    }

    /// Set tag name and value of the write entry.
    ///
    /// You cannot set tag with name like 'timestamp' or 'tsid',
    /// because they are keywords in horaedb.
    pub fn tag(self, name: String, value: Value) -> (r: Self)
        ensures
            r.tags() == with_entry(self.tags(), name@, value@),
            r.reserved() == (self.reserved() || is_reserved(name@)),
            r.table_name() == self.table_name(),
            r.time() == self.time(),
            r.fields() == self.fields(),
    {
        let mut builder = self;
        if is_reserved_column_name(name.as_str()) {
            builder.contains_reserved_column_name = true;
        }
        builder.tags.insert(name, value);
        builder
    }

    /// Set the name and value of a field specified by its `name`.
    pub fn field(self, name: String, value: Value) -> (r: Self)
        ensures
            r.fields() == with_entry(self.fields(), name@, value@),
            r.reserved() == (self.reserved() || is_reserved(name@)),
            r.table_name() == self.table_name(),
            r.time() == self.time(),
            r.tags() == self.tags(),
    {
        let mut builder = self;
        if is_reserved_column_name(name.as_str()) {
            builder.contains_reserved_column_name = true;
        }
        builder.fields.insert(name, value);
        builder
    }

    /// Build the final point. A point needs a timestamp and a field, and
    /// may not name a tag or a field as a reserved column.
    pub fn build(self) -> (r: Result<Point, String>)
        ensures
            match r {
                Ok(point) => {
                    &&& !self.reserved()
                    &&& self.fields().len() > 0
                    &&& self.time() == Some(point.timestamp)
                    &&& point.table@ == self.table_name()
                    &&& point.tags@ == self.tags()
                    &&& point.fields@ == self.fields()
                },
                Err(msg) => msg@ == if self.reserved() {
                    RESERVED_NAME@
                } else if self.fields().len() == 0 {
                    NO_FIELDS@
                } else {
                    NO_TIMESTAMP@
                } && (self.reserved() || self.fields().len() == 0 || self.time() is None),
            },
    {
        if self.contains_reserved_column_name {
            return Err(String::from_str(RESERVED_NAME));
        }
        if self.fields.is_empty() {
            return Err(String::from_str(NO_FIELDS));
        }
        let timestamp = match self.timestamp {
            Some(timestamp) => timestamp,
            None => {
                return Err(String::from_str(NO_TIMESTAMP));
            },
        };
        Ok(Point { table: self.table, timestamp, tags: self.tags, fields: self.fields })
    }
}

} // verus!
