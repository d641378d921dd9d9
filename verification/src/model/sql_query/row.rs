//! [Row] in sql query

use vstd::prelude::*;
use crate::errors::Error;
use crate::model::value::{Value, ValueView};

verus! {

/// A value of a row under the name of its column.
#[derive(Debug, PartialEq)]
pub struct Column {
    pub name: String,
    pub value: Value,
}

impl Column {
    pub fn new(name: String, value: Value) -> (r: Self)
        ensures
            r.name == name,
            r.value == value,
    {
        Self { name, value }
    }
}

/// The index of the first column with the given name.
pub open spec fn index_of_name(columns: Seq<Column>, name: Seq<char>) -> Option<int>
    decreases columns.len(),
{
    if columns.len() == 0 {
        None
    } else {
        match index_of_name(columns.drop_last(), name) {
            Some(i) => Some(i),
            None => if columns.last().name@ == name {
                Some(columns.len() - 1)
            } else {
                None
            },
        }
    }
}

proof fn lemma_name_is_kept(columns: Seq<Column>, k: int, name: Seq<char>)
    requires
        0 <= k <= columns.len(),
        index_of_name(columns.take(k), name) is Some,
    ensures
        index_of_name(columns, name) == index_of_name(columns.take(k), name),
    decreases columns.len() - k,
{
    if k < columns.len() {
        assert(columns.take(k + 1).drop_last() == columns.take(k));
        lemma_name_is_kept(columns, k + 1, name);
    } else {
        assert(columns.take(k) == columns);
    }
}

/// A row of a sql result: its columns in their order.
#[derive(Debug, PartialEq)]
pub struct Row {
    // It is better to iterate in a fixed order, also can save memory.
    pub columns: Vec<Column>,
}

impl Row {
    /// The first column of the given name.
    pub fn column(&self, name: &str) -> (r: Option<&Column>)
        ensures
            match r {
                Some(column) => index_of_name(self.columns@, name@) matches Some(i)
                    && *column == self.columns@[i],
                None => index_of_name(self.columns@, name@) is None,
            },
    {
        let wanted = String::from_str(name);
        let mut i: usize = 0;
        while i < self.columns.len()
            invariant
                i <= self.columns@.len(),
                wanted@ == name@,
                index_of_name(self.columns@.take(i as int), name@) is None,
            decreases self.columns@.len() - i,
        {
            proof {
                let more = self.columns@.take(i + 1);
                assert(more.drop_last() == self.columns@.take(i as int));
                assert(more.last() == self.columns@[i as int]);
            }
            if self.columns[i].name == wanted {
                proof {
                    lemma_name_is_kept(self.columns@, i + 1, name@);
                }
                return Some(&self.columns[i]);
            }
            i += 1;
        }
        assert(self.columns@.take(i as int) == self.columns@);
        None
    }

    /// The columns in their order.
    pub fn columns(&self) -> (r: &[Column])
        ensures
            r@ == self.columns@,
    {
        self.columns.as_slice()
    }
}

/// The values of one column of a record batch, by the type of the column.
#[derive(Debug)]
pub enum ArrowColumn {
    /// A column without values.
    Null,
    Boolean(Vec<bool>),
    Int8(Vec<i8>),
    Int16(Vec<i16>),
    Int32(Vec<i32>),
    Int64(Vec<i64>),
    UInt8(Vec<u8>),
    UInt16(Vec<u16>),
    UInt32(Vec<u32>),
    UInt64(Vec<u64>),
    Utf8(Vec<String>),
    Binary(Vec<Vec<u8>>),
    /// Milliseconds since the epoch.
    TimestampMillisecond(Vec<i64>),
    /// Milliseconds since midnight.
    Time32Millisecond(Vec<i32>),
    /// A column of a type that rows cannot hold; the type as text.
    Unsupported(String),
}

impl ArrowColumn {
    /// The number of values, where the column has values.
    pub open spec fn len(self) -> Option<nat> {
        match self {
            ArrowColumn::Null => None,
            ArrowColumn::Boolean(v) => Some(v@.len()),
            ArrowColumn::Int8(v) => Some(v@.len()),
            ArrowColumn::Int16(v) => Some(v@.len()),
            ArrowColumn::Int32(v) => Some(v@.len()),
            ArrowColumn::Int64(v) => Some(v@.len()),
            ArrowColumn::UInt8(v) => Some(v@.len()),
            ArrowColumn::UInt16(v) => Some(v@.len()),
            ArrowColumn::UInt32(v) => Some(v@.len()),
            ArrowColumn::UInt64(v) => Some(v@.len()),
            ArrowColumn::Utf8(v) => Some(v@.len()),
            ArrowColumn::Binary(v) => Some(v@.len()),
            ArrowColumn::TimestampMillisecond(v) => Some(v@.len()),
            ArrowColumn::Time32Millisecond(v) => Some(v@.len()),
            ArrowColumn::Unsupported(_) => None,
        }
    }

    /// The column has as many values as there are rows, or none at all.
    pub open spec fn fits(self, rows: nat) -> bool {
        self.len() matches Some(n) ==> n == rows
    }

    /// The value of the column in the given row, as a row holds it. A
    /// column without values is null in every row.
    pub open spec fn value(self, row: int) -> ValueView {
        match self {
            ArrowColumn::Null => ValueView::Null,
            ArrowColumn::Boolean(v) => ValueView::Boolean(v@[row]),
            ArrowColumn::Int8(v) => ValueView::Int8(v@[row]),
            ArrowColumn::Int16(v) => ValueView::Int16(v@[row]),
            ArrowColumn::Int32(v) => ValueView::Int32(v@[row]),
            ArrowColumn::Int64(v) => ValueView::Int64(v@[row]),
            ArrowColumn::UInt8(v) => ValueView::UInt8(v@[row]),
            ArrowColumn::UInt16(v) => ValueView::UInt16(v@[row]),
            ArrowColumn::UInt32(v) => ValueView::UInt32(v@[row]),
            ArrowColumn::UInt64(v) => ValueView::UInt64(v@[row]),
            ArrowColumn::Utf8(v) => ValueView::String(v@[row]@),
            ArrowColumn::Binary(v) => ValueView::Varbinary(v@[row]@),
            ArrowColumn::TimestampMillisecond(v) => ValueView::Timestamp(v@[row]),
            ArrowColumn::Time32Millisecond(v) => ValueView::Timestamp(v@[row] as i64),
            ArrowColumn::Unsupported(_) => ValueView::Null,
        }
    }

    /// The value of the column in the given row.
    fn value_at(&self, row: usize) -> (r: Value)
        requires
            self.len() matches Some(n) ==> row < n,
        ensures
            r@ == self.value(row as int),
    {
        match self {
            ArrowColumn::Null => Value::Null,
            ArrowColumn::Boolean(v) => Value::Boolean(v[row]),
            ArrowColumn::Int8(v) => Value::Int8(v[row]),
            ArrowColumn::Int16(v) => Value::Int16(v[row]),
            ArrowColumn::Int32(v) => Value::Int32(v[row]),
            ArrowColumn::Int64(v) => Value::Int64(v[row]),
            ArrowColumn::UInt8(v) => Value::UInt8(v[row]),
            ArrowColumn::UInt16(v) => Value::UInt16(v[row]),
            ArrowColumn::UInt32(v) => Value::UInt32(v[row]),
            ArrowColumn::UInt64(v) => Value::UInt64(v[row]),
            ArrowColumn::Utf8(v) => Value::String(v[row].clone()),
            ArrowColumn::Binary(v) => Value::Varbinary(v[row].clone()),
            ArrowColumn::TimestampMillisecond(v) => Value::Timestamp(v[row]),
            ArrowColumn::Time32Millisecond(v) => Value::Timestamp(v[row] as i64),
            ArrowColumn::Unsupported(_) => Value::Null,
        }
    }
}

/// The rows of a record batch, column by column.
#[derive(Debug)]
pub struct RecordBatch {
    /// The name of each column.
    pub fields: Vec<String>,
    /// The values of each column.
    pub columns: Vec<ArrowColumn>,
    pub num_rows: usize,
}

impl RecordBatch {
    /// Every column has a name, and as many values as the batch has rows.
    pub open spec fn wf(self) -> bool {
        &&& self.fields@.len() == self.columns@.len()
        &&& forall|c: int|
            0 <= c < self.columns@.len() ==> (#[trigger] self.columns@[c]).fits(
                self.num_rows as nat,
            )
    }

    /// The first column of a type that rows cannot hold.
    pub open spec fn unsupported(self) -> Option<int> {
        first_unsupported(self.columns@)
    }
}

/// The first column of a type that rows cannot hold.
pub open spec fn first_unsupported(columns: Seq<ArrowColumn>) -> Option<int>
    decreases columns.len(),
{
    if columns.len() == 0 {
        None
    } else {
        match first_unsupported(columns.drop_last()) {
            Some(c) => Some(c),
            None => if columns.last() is Unsupported {
                Some(columns.len() - 1)
            } else {
                None
            },
        }
    }
}

proof fn lemma_unsupported_is_kept(columns: Seq<ArrowColumn>, k: int)
    requires
        0 <= k <= columns.len(),
        first_unsupported(columns.take(k)) is Some,
    ensures
        first_unsupported(columns) == first_unsupported(columns.take(k)),
    decreases columns.len() - k,
{
    if k < columns.len() {
        assert(columns.take(k + 1).drop_last() == columns.take(k));
        lemma_unsupported_is_kept(columns, k + 1);
    } else {
        assert(columns.take(k) == columns);
    }
}

/// The text of the error for a column of a type that rows cannot hold.
pub open spec fn unsupported_type_message(arrow_type: Seq<char>) -> Seq<char> {
    "Unsupported arrow type:"@ + arrow_type
}

/// The rows have `cols` values each.
pub open spec fn rectangular(rows: Seq<Vec<Value>>, cols: nat) -> bool {
    forall|r: int| 0 <= r < rows.len() ==> (#[trigger] rows[r])@.len() == cols
}

/// The rows of a record batch while they are built: the name of each
/// column, and the values row by row.
#[derive(Debug)]
pub struct RowBuilder {
    pub col_idx_to_name: Vec<String>,
    pub row_values: Vec<Vec<Value>>,
}

impl RowBuilder {
    /// The rows, each value with the name of its column.
    pub fn build(self) -> (r: Vec<Row>)
        requires
            forall|i: int|
                0 <= i < self.row_values@.len() ==> (#[trigger] self.row_values@[i])@.len()
                    <= self.col_idx_to_name@.len(),
        ensures
            r@.len() == self.row_values@.len(),
            forall|i: int|
                0 <= i < r@.len() ==> (#[trigger] r@[i]).columns@.len()
                    == self.row_values@[i]@.len(),
            forall|i: int, j: int|
                0 <= i < r@.len() && 0 <= j < r@[i].columns@.len() ==> (
                #[trigger] r@[i].columns@[j]).name == self.col_idx_to_name@[j],
            forall|i: int, j: int|
                0 <= i < r@.len() && 0 <= j < r@[i].columns@.len() ==> (
                #[trigger] r@[i].columns@[j]).value == self.row_values@[i]@[j],
    {
        let RowBuilder { col_idx_to_name, row_values } = self;
        let ghost all = row_values@;
        let mut rows: Vec<Row> = Vec::new();
        for row in it: row_values.into_iter()
            invariant
                it.seq() == all,
                forall|i: int|
                    0 <= i < all.len() ==> (#[trigger] all[i])@.len() <= col_idx_to_name@.len(),
                rows@.len() == it.index(),
                forall|i: int|
                    0 <= i < rows@.len() ==> (#[trigger] rows@[i]).columns@.len() == all[i]@.len(),
                forall|i: int, j: int|
                    0 <= i < rows@.len() && 0 <= j < rows@[i].columns@.len() ==> (
                    #[trigger] rows@[i].columns@[j]).name == col_idx_to_name@[j],
                forall|i: int, j: int|
                    0 <= i < rows@.len() && 0 <= j < rows@[i].columns@.len() ==> (
                    #[trigger] rows@[i].columns@[j]).value == all[i]@[j],
        {
            let ghost values = row@;
            assert(row == all[it.index()]);
            let mut columns: Vec<Column> = Vec::new();
            for value in cells: row.into_iter()
                invariant
                    cells.seq() == values,
                    values.len() <= col_idx_to_name@.len(),
                    columns@.len() == cells.index(),
                    forall|j: int|
                        0 <= j < columns@.len() ==> (#[trigger] columns@[j]).name
                            == col_idx_to_name@[j],
                    forall|j: int|
                        0 <= j < columns@.len() ==> (#[trigger] columns@[j]).value == values[j],
            {
                // Find its name.
                let col_name = col_idx_to_name[columns.len()].clone();
                columns.push(Column::new(col_name, value));
            }
            rows.push(Row { columns });
        }
        rows
    }

    /// The builder of the rows of a record batch, or the refusal of a batch
    /// with a column of a type that rows cannot hold.
    pub fn with_arrow_record_batch(record_batch: RecordBatch) -> (r: Result<Self, Error>)
        requires
            record_batch.wf(),
        ensures
            match r {
                Ok(builder) => {
                    &&& record_batch.unsupported() is None
                    &&& builder.col_idx_to_name == record_batch.fields
                    &&& builder.row_values@.len() == record_batch.num_rows
                    &&& rectangular(builder.row_values@, record_batch.columns@.len())
                    &&& forall|i: int, c: int|
                        0 <= i < record_batch.num_rows && 0 <= c < record_batch.columns@.len()
                            ==> (#[trigger] builder.row_values@[i]@[c])@
                            == record_batch.columns@[c].value(i)
                },
                Err(e) => {
                    &&& record_batch.unsupported() matches Some(c)
                    &&& record_batch.columns@[c] matches ArrowColumn::Unsupported(arrow_type)
                    &&& e matches Error::BuildRows(msg)
                    &&& msg@ == unsupported_type_message(arrow_type@)
                },
            },
    {
        // Build `rows`.
        let col_count = record_batch.columns.len();
        let row_count = record_batch.num_rows;
        let mut rows: Vec<Vec<Value>> = Vec::new();
        let mut i: usize = 0;
        while i < row_count
            invariant
                i <= row_count,
                rows@.len() == i,
                rectangular(rows@, col_count as nat),
                forall|r: int, c: int|
                    0 <= r < i && 0 <= c < col_count ==> (#[trigger] rows@[r]@[c])@
                        == ValueView::Null,
            decreases row_count - i,
        {
            let mut row: Vec<Value> = Vec::new();
            let mut c: usize = 0;
            while c < col_count
                invariant
                    c <= col_count,
                    row@.len() == c,
                    forall|k: int| 0 <= k < c ==> (#[trigger] row@[k])@ == ValueView::Null,
                decreases col_count - c,
            {
                row.push(Value::Null);
                c += 1;
            }
            rows.push(row);
            i += 1;
        }

        // Fill row row batch column by column.
        let mut col_idx: usize = 0;
        while col_idx < col_count
            invariant
                col_idx <= col_count,
                col_count == record_batch.columns@.len(),
                row_count == record_batch.num_rows,
                record_batch.wf(),
                rows@.len() == row_count,
                rectangular(rows@, col_count as nat),
                first_unsupported(record_batch.columns@.take(col_idx as int)) is None,
                forall|r: int, c: int|
                    0 <= r < row_count && 0 <= c < col_idx ==> (#[trigger] rows@[r]@[c])@
                        == record_batch.columns@[c].value(r),
                forall|r: int, c: int|
                    0 <= r < row_count && col_idx <= c < col_count ==> (#[trigger] rows@[r]@[c])@
                        == ValueView::Null,
            decreases col_count - col_idx,
        {
            let arrow_column = &record_batch.columns[col_idx];
            proof {
                let more = record_batch.columns@.take(col_idx + 1);
                assert(more.drop_last() == record_batch.columns@.take(col_idx as int));
                assert(more.last() == record_batch.columns@[col_idx as int]);
                assert(arrow_column.fits(row_count as nat));
            }
            match Self::fill_column_in_row_batch(&mut rows, col_idx, arrow_column) {
                Ok(_) => {},
                Err(e) => {
                    proof {
                        lemma_unsupported_is_kept(record_batch.columns@, col_idx + 1);
                    }
                    return Err(e);
                },
            }
            col_idx += 1;
        }
        assert(record_batch.columns@.take(col_idx as int) == record_batch.columns@);
        Ok(RowBuilder { col_idx_to_name: record_batch.fields, row_values: rows })
    }

    /// Puts the values of a column into the rows, each at the place of the
    /// column. A column without values leaves the rows as they are. A column
    /// of a type that rows cannot hold is refused.
    pub fn fill_column_in_row_batch(
        rows: &mut Vec<Vec<Value>>,
        col_idx: usize,
        arrow_column: &ArrowColumn,
    ) -> (r: Result<(), Error>)
        requires
            arrow_column.fits(old(rows)@.len()),
            forall|i: int| 0 <= i < old(rows)@.len() ==> col_idx < (#[trigger] old(rows)@[i])@.len(),
        ensures
            final(rows)@.len() == old(rows)@.len(),
            forall|i: int|
                0 <= i < old(rows)@.len() ==> (#[trigger] final(rows)@[i])@.len() == old(
                    rows,
                )@[i]@.len(),
            forall|i: int, c: int|
                0 <= i < old(rows)@.len() && 0 <= c < old(rows)@[i]@.len() && c != col_idx ==> (
                #[trigger] final(rows)@[i]@[c]) == old(rows)@[i]@[c],
            match r {
                Ok(_) => {
                    &&& !(arrow_column is Unsupported)
                    &&& forall|i: int|
                        0 <= i < old(rows)@.len() ==> (#[trigger] final(rows)@[i]@[col_idx as int])@
                            == if arrow_column is Null {
                            old(rows)@[i]@[col_idx as int]@
                        } else {
                            arrow_column.value(i)
                        }
                },
                Err(e) => {
                    &&& arrow_column matches ArrowColumn::Unsupported(arrow_type)
                    &&& e matches Error::BuildRows(msg)
                    &&& msg@ == unsupported_type_message(arrow_type@)
                    &&& final(rows)@ == old(rows)@
                },
            },
    {
        let row_count = rows.len();
        match arrow_column {
            // Because `rows` will be initialized with `Value::Null`, just do nothing while
            // encounter `DataType::Null`.
            ArrowColumn::Null => {},
            // Encounter unsupported type.
            ArrowColumn::Unsupported(arrow_type) => {
                let mut msg = String::from_str("Unsupported arrow type:");
                msg.append(arrow_type.as_str());
                return Err(Error::BuildRows(msg));
            },
            _ => {
                let mut row_idx: usize = 0;
                while row_idx < row_count
                    invariant
                        row_idx <= row_count,
                        row_count == old(rows)@.len(),
                        rows@.len() == row_count,
                        arrow_column.len() == Some(row_count as nat),
                        forall|i: int|
                            0 <= i < row_count ==> (#[trigger] rows@[i])@.len() == old(
                                rows,
                            )@[i]@.len(),
                        forall|i: int| 0 <= i < row_count ==> col_idx < (#[trigger] old(rows)@[i])@.len(),
                        forall|i: int, c: int|
                            0 <= i < row_count && 0 <= c < old(rows)@[i]@.len() && c != col_idx
                                ==> (#[trigger] rows@[i]@[c]) == old(rows)@[i]@[c],
                        forall|i: int|
                            0 <= i < row_idx ==> (#[trigger] rows@[i]@[col_idx as int])@
                                == arrow_column.value(i),
                        forall|i: int|
                            row_idx <= i < row_count ==> (#[trigger] rows@[i]) == old(rows)@[i],
                    decreases row_count - row_idx,
                {
                    let value = arrow_column.value_at(row_idx);
                    rows[row_idx][col_idx] = value;
                    row_idx += 1;
                }
            },
        }
        Ok(())
    }
}

} // verus!
