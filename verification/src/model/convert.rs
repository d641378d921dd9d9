//! From what avro decodes to the rows of a result.

use vstd::prelude::*;
use crate::model::row::{
    column_views, schema_columns, AvroSchema, ColumnDataType, QueriedRows, Row, Schema,
};
use crate::model::value::{Value, ValueView};

verus! {

/// A value as avro decodes it, as far as rows go. Every other kind of value
/// is `Other`, with how it is written out in an error. A floating point
/// number is held as its bits.
#[derive(Debug)]
pub enum AvroValue {
    Null,
    TimestampMillis(i64),
    Double(u64),
    Float(u32),
    Bytes(Vec<u8>),
    String(String),
    Long(i64),
    Int(i32),
    Boolean(bool),
    Union(Box<AvroValue>),
    /// The columns of a record: the name and the value of each; and how the
    /// record is written out in an error.
    Record(Vec<(String, AvroValue)>, String),
    Other(String),
}

/// The text of the error for a value that rows cannot hold.
pub open spec fn unsupported_value(value: Seq<char>) -> Seq<char> {
    "Unsupported value type:"@ + value
}

/// The text of the error for a row that is no record.
pub open spec fn invalid_row(record: Seq<char>) -> Seq<char> {
    "invalid avro row:"@ + record + ", expect record"@
}

/// The value of a column for what avro decoded, or why there is none. The
/// value in a union counts.
pub open spec fn datum_of(value: AvroValue) -> Result<ValueView, Seq<char>>
    decreases value,
{
    match value {
        AvroValue::Null => Ok(ValueView::Null),
        AvroValue::TimestampMillis(v) => Ok(ValueView::Timestamp(v)),
        AvroValue::Double(v) => Ok(ValueView::Double(v)),
        AvroValue::Float(v) => Ok(ValueView::Float(v)),
        AvroValue::Bytes(v) => Ok(ValueView::Varbinary(v@)),
        AvroValue::String(v) => Ok(ValueView::String(v@)),
        AvroValue::Long(v) => Ok(ValueView::Int64(v)),
        AvroValue::Int(v) => Ok(ValueView::Int32(v)),
        AvroValue::Boolean(v) => Ok(ValueView::Boolean(v)),
        AvroValue::Union(inner) => datum_of(*inner),
        AvroValue::Record(_, text) => Err(unsupported_value(text@)),
        AvroValue::Other(text) => Err(unsupported_value(text@)),
    }
}

/// Convert the avro value into the value of a column.
///
/// Some types defined by avro are not used and the conversion rule is
/// totally based on the implementation in the server.
pub fn value_to_datum(value: AvroValue) -> (r: Result<Value, String>)
    ensures
        match r {
            Ok(datum) => datum_of(value) == Ok::<ValueView, Seq<char>>(datum@),
            Err(msg) => datum_of(value) == Err::<ValueView, Seq<char>>(msg@),
        },
    decreases value,
{
    let datum = match value {
        AvroValue::Null => Value::Null,
        AvroValue::TimestampMillis(v) => Value::Timestamp(v),
        AvroValue::Double(v) => Value::Double(v),
        AvroValue::Float(v) => Value::Float(v),
        AvroValue::Bytes(v) => Value::Varbinary(v),
        AvroValue::String(v) => Value::String(v),
        // The server converts both uint64 and int64 into `Long` because avro has no uint64;
        // a uint64 beyond the range of int64 arrives as a negative number.
        AvroValue::Long(v) => Value::Int64(v),
        AvroValue::Int(v) => Value::Int32(v),
        AvroValue::Boolean(v) => Value::Boolean(v),
        AvroValue::Union(inner_val) => {
            return value_to_datum(*inner_val);
        },
        AvroValue::Record(_, text) => {
            let mut msg = String::from_str("Unsupported value type:");
            msg.append(text.as_str());
            return Err(msg);
        },
        AvroValue::Other(text) => {
            let mut msg = String::from_str("Unsupported value type:");
            msg.append(text.as_str());
            return Err(msg);
        },
    };
    Ok(datum)
}

/// The values of the columns of a record, or the error of the first column
/// that has none.
pub open spec fn datums_of(cols: Seq<(String, AvroValue)>) -> Result<
    Seq<ValueView>,
    Seq<char>,
>
    decreases cols.len(),
{
    if cols.len() == 0 {
        Ok(Seq::empty())
    } else {
        match datums_of(cols.drop_last()) {
            Err(e) => Err(e),
            Ok(datums) => match datum_of(cols.last().1) {
                Err(e) => Err(e),
                Ok(datum) => Ok(datums.push(datum)),
            },
        }
    }
}

/// The values as what they stand for.
pub open spec fn datum_views(datums: Seq<Value>) -> Seq<ValueView> {
    datums.map_values(|d: Value| d@)
}

proof fn lemma_datums_error_is_kept(cols: Seq<(String, AvroValue)>, k: int)
    requires
        0 <= k <= cols.len(),
        datums_of(cols.take(k)) is Err,
    ensures
        datums_of(cols) == datums_of(cols.take(k)),
    decreases cols.len() - k,
{
    if k < cols.len() {
        assert(cols.take(k + 1).drop_last() == cols.take(k));
        lemma_datums_error_is_kept(cols, k + 1);
    } else {
        assert(cols.take(k) == cols);
    }
}

/// Puts the values of the columns of a decoded row at the end of `row`. What
/// was decoded has to be a record; `debug` is how it is written out in an
/// error. Where a column has no value, the row holds the values of the
/// columns before it.
pub fn parse_one_row(record: AvroValue, debug: &str, row: &mut Row) -> (r: Result<(), String>)
    ensures
        match record {
            AvroValue::Record(cols, _) => match r {
                Ok(_) => datums_of(cols@) matches Ok(datums) && datum_views(final(row).datums@)
                    == datum_views(old(row).datums@) + datums,
                Err(msg) => datums_of(cols@) == Err::<Seq<ValueView>, Seq<char>>(msg@),
            },
            _ => r matches Err(msg) && msg@ == invalid_row(debug@) && *final(row) == *old(row),
        },
{
    if let AvroValue::Record(cols, _) = record {
        let ghost all = cols@;
        let ghost start = datum_views(row.datums@);
        assert(all.take(0) =~= Seq::empty());
        assert(start + Seq::<ValueView>::empty() =~= start);
        for col in it: cols.into_iter()
            invariant
                it.seq() == all,
                record matches AvroValue::Record(c, _) && c@ == all,
                start == datum_views(old(row).datums@),
                datums_of(all.take(it.index())) matches Ok(datums) && datum_views(row.datums@)
                    == start + datums,
        {
            let ghost k = it.index();
            let ghost before = datum_views(row.datums@);
            proof {
                assert(col == all[k]);
                assert(all.take(k + 1).drop_last() == all.take(k));
                assert(all.take(k + 1).last() == col);
            }
            let (_, column_value) = col;
            let datum = match value_to_datum(column_value) {
                Ok(datum) => datum,
                Err(e) => {
                    proof {
                        assert(datums_of(all.take(k + 1)) == Err::<Seq<ValueView>, Seq<char>>(
                            e@,
                        ));
                        lemma_datums_error_is_kept(all, k + 1);
                    }
                    return Err(e);
                },
            };
            row.datums.push(datum);
            assert(datum_views(row.datums@) =~= before.push(datum@));
        }
        assert(all.take(all.len() as int) == all);
        Ok(())
    } else {
        let mut msg = String::from_str("invalid avro row:");
        msg.append(debug);
        msg.append(", expect record");
        Err(msg)
    }
}

/// Why a decoded row cannot be read, where it cannot.
pub open spec fn row_failure(record: (AvroValue, String)) -> Option<Seq<char>> {
    match record.0 {
        AvroValue::Record(cols, _) => match datums_of(cols@) {
            Ok(_) => None,
            Err(e) => Some(e),
        },
        _ => Some(invalid_row(record.1@)),
    }
}

/// Why the first decoded row that cannot be read cannot be read.
pub open spec fn first_row_failure(records: Seq<(AvroValue, String)>) -> Option<Seq<char>>
    decreases records.len(),
{
    if records.len() == 0 {
        None
    } else {
        match first_row_failure(records.drop_last()) {
            Some(e) => Some(e),
            None => row_failure(records.last()),
        }
    }
}

proof fn lemma_row_failure_is_kept(records: Seq<(AvroValue, String)>, k: int)
    requires
        0 <= k <= records.len(),
        first_row_failure(records.take(k)) is Some,
    ensures
        first_row_failure(records) == first_row_failure(records.take(k)),
    decreases records.len() - k,
{
    if k < records.len() {
        assert(records.take(k + 1).drop_last() == records.take(k));
        lemma_row_failure_is_kept(records, k + 1);
    } else {
        assert(records.take(k) == records);
    }
}

/// `row` holds the values of the columns of the decoded row.
pub open spec fn row_parsed(row: Row, record: (AvroValue, String)) -> bool {
    &&& record.0 matches AvroValue::Record(cols, _)
    &&& datums_of(cols@) matches Ok(datums)
    &&& datum_views(row.datums@) == datums
}

/// The rows of a result from its schema and its decoded rows, each with how
/// it is written out in an error. A schema without columns fails, and so
/// does the first row that cannot be read.
pub fn parse_queried_rows(avro_schema: &AvroSchema, records: Vec<(AvroValue, String)>) -> (r:
    Result<QueriedRows, String>)
    ensures
        match schema_columns(*avro_schema) {
            Err(e) => r matches Err(msg) && msg@ == e,
            Ok(columns) => match first_row_failure(records@) {
                Some(e) => r matches Err(msg) && msg@ == e,
                None => {
                    &&& r matches Ok(queried)
                    &&& column_views(queried.schema.column_schemas@) == columns
                    &&& queried.rows@.len() == records@.len()
                    &&& forall|i: int|
                        0 <= i < records@.len() ==> row_parsed(
                            #[trigger] queried.rows@[i],
                            records@[i],
                        )
                },
            },
        },
{
    let schema = match Schema::from_avro(avro_schema) {
        Ok(schema) => schema,
        Err(e) => {
            return Err(e);
        },
    };
    let ghost all = records@;
    let ghost columns = column_views(schema.column_schemas@);
    let mut queried_rows = QueriedRows::with_capacity(schema, records.len());
    for record in it: records.into_iter()
        invariant
            it.seq() == all,
            schema_columns(*avro_schema) == Ok::<Seq<(Seq<char>, ColumnDataType)>, Seq<char>>(
                columns,
            ),
            column_views(queried_rows.schema.column_schemas@) == columns,
            first_row_failure(all.take(it.index())) is None,
            queried_rows.rows@.len() == it.index(),
            forall|i: int|
                0 <= i < it.index() ==> row_parsed(#[trigger] queried_rows.rows@[i], all[i]),
    {
        let ghost k = it.index();
        proof {
            assert(record == all[k]);
            assert(all.take(k + 1).drop_last() == all.take(k));
            assert(all.take(k + 1).last() == record);
        }
        let (raw_row, debug) = record;
        let mut row = Row::with_column_num(queried_rows.schema.num_cols());
        assert(datum_views(row.datums@) =~= Seq::empty());
        match parse_one_row(raw_row, debug.as_str(), &mut row) {
            Ok(_) => {},
            Err(e) => {
                proof {
                    lemma_row_failure_is_kept(all, k + 1);
                }
                return Err(e);
            },
        }
        let ghost done = queried_rows.rows@;
        queried_rows.rows.push(row);
        proof {
            assert(row_parsed(row, all[k])) by {
                let cols = raw_row->Record_0;
                let datums = datums_of(cols@)->Ok_0;
                assert(Seq::<ValueView>::empty() + datums =~= datums);
            }
            assert forall|i: int| 0 <= i < k + 1 implies row_parsed(
                #[trigger] queried_rows.rows@[i],
                all[i],
            ) by {
                if i < k {
                    assert(queried_rows.rows@[i] == done[i]);
                }
            }
        }
    }
    assert(all.take(all.len() as int) == all);
    Ok(queried_rows)
}

} // verus!
