//! The schema of queried rows.

use vstd::prelude::*;
use crate::model::value::Value;

verus! {

/// One row of a result: the values of its columns.
#[derive(Debug, PartialEq)]
pub struct Row {
    pub datums: Vec<Value>,
}

impl Row {
    pub fn with_column_num(n: usize) -> (r: Self)
        ensures
            r.datums@.len() == 0,
    {
        Self { datums: Vec::with_capacity(n) }
    }
}

/// The kinds of avro schema, as far as columns go. Every other kind is
/// `Other`.
#[derive(Debug)]
pub enum AvroKind {
    Null,
    Boolean,
    Int,
    Long,
    Float,
    Double,
    Bytes,
    String,
    TimestampMillis,
    /// The variants of a union.
    Union(Vec<AvroSchema>),
    /// The fields of a record: the name and the schema of each.
    Record(Vec<(String, AvroSchema)>),
    Other,
}

/// An avro schema: its kind, and how it is written out in an error.
#[derive(Debug)]
pub struct AvroSchema {
    pub kind: AvroKind,
    pub debug: String,
}

/// The text of the error for a union of other than two variants.
pub open spec fn bad_union_size(schema: Seq<char>) -> Seq<char> {
    "invalid avro union schema:"@ + schema + ", expect at least two columns"@
}

/// The text of the error for a union whose first variant is not null.
pub open spec fn bad_union_head(schema: Seq<char>) -> Seq<char> {
    "invalid avro union schema:"@ + schema + ", expect the first column is null"@
}

/// The text of the error for a schema that is no type of a column.
pub open spec fn bad_basic_schema(schema: Seq<char>) -> Seq<char> {
    "invalid avro basic schema:"@ + schema
}

/// The text of the error for a schema that is no record.
pub open spec fn unsupported_schema(schema: Seq<char>) -> Seq<char> {
    "Unsupported schema:"@ + schema
}

/// The type of the column with the given schema: that of a basic schema, or
/// that of the second variant of a union of null and one more; or why the
/// schema gives none.
pub open spec fn column_type(schema: AvroSchema) -> Result<ColumnDataType, Seq<char>>
    decreases schema,
{
    match schema.kind {
        AvroKind::Null => Ok(ColumnDataType::Null),
        AvroKind::Boolean => Ok(ColumnDataType::Boolean),
        AvroKind::Int => Ok(ColumnDataType::Int32),
        AvroKind::Long => Ok(ColumnDataType::Int64),
        AvroKind::Float => Ok(ColumnDataType::Float),
        AvroKind::Double => Ok(ColumnDataType::Double),
        AvroKind::Bytes => Ok(ColumnDataType::Bytes),
        AvroKind::String => Ok(ColumnDataType::String),
        AvroKind::TimestampMillis => Ok(ColumnDataType::TimestampMillis),
        AvroKind::Union(variants) => if variants@.len() != 2 {
            Err(bad_union_size(schema.debug@))
        } else if variants@[0].kind is Null {
            column_type(variants@[1])
        } else {
            Err(bad_union_head(schema.debug@))
        },
        AvroKind::Record(_) => Err(bad_basic_schema(schema.debug@)),
        AvroKind::Other => Err(bad_basic_schema(schema.debug@)),
    }
}

/// The columns of the fields of a record, or the error of the first field
/// whose schema gives no type.
pub open spec fn columns_of(fields: Seq<(String, AvroSchema)>) -> Result<
    Seq<(Seq<char>, ColumnDataType)>,
    Seq<char>,
>
    decreases fields.len(),
{
    if fields.len() == 0 {
        Ok(Seq::empty())
    } else {
        match columns_of(fields.drop_last()) {
            Err(e) => Err(e),
            Ok(columns) => match column_type(fields.last().1) {
                Err(e) => Err(e),
                Ok(data_type) => Ok(columns.push((fields.last().0@, data_type))),
            },
        }
    }
}

/// The columns of a schema: those of the fields of a record; a schema that
/// is no record has none.
pub open spec fn schema_columns(schema: AvroSchema) -> Result<
    Seq<(Seq<char>, ColumnDataType)>,
    Seq<char>,
> {
    match schema.kind {
        AvroKind::Record(fields) => columns_of(fields@),
        _ => Err(unsupported_schema(schema.debug@)),
    }
}

/// Name and type of each column.
pub open spec fn column_views(columns: Seq<ColumnSchema>) -> Seq<(Seq<char>, ColumnDataType)> {
    columns.map_values(|c: ColumnSchema| (c.name@, c.data_type))
}

/// The type of a column of queried rows.
#[derive(Debug, Clone, Copy, PartialEq, Eq, Structural)]
pub enum ColumnDataType {
    Null,
    TimestampMillis,
    Double,
    Float,
    Bytes,
    String,
    Int64,
    Int32,
    Boolean,
}

/// Name and type of a column.
#[derive(Debug)]
pub struct ColumnSchema {
    pub data_type: ColumnDataType,
    pub name: String,
}

impl Clone for ColumnSchema {
    fn clone(&self) -> (r: Self)
        ensures
            r == *self,
    {
        ColumnSchema { data_type: self.data_type, name: self.name.clone() }
    }
}

/// The index of the first column with the given name.
pub open spec fn index_of_column(columns: Seq<ColumnSchema>, name: Seq<char>) -> Option<int>
    decreases columns.len(),
{
    if columns.len() == 0 {
        None
    } else {
        match index_of_column(columns.drop_last(), name) {
            Some(i) => Some(i),
            None => if columns.last().name@ == name {
                Some(columns.len() - 1)
            } else {
                None
            },
        }
    }
}

/// The columns of a result, in their order. A column is found by its name.
#[derive(Debug)]
pub struct Schema {
    pub column_schemas: Vec<ColumnSchema>,
}

impl Default for Schema {
    fn default() -> (r: Self)
        ensures
            r.column_schemas@.len() == 0,
    {
        Schema { column_schemas: Vec::new() }
    }
}

impl ColumnDataType {
    /// Convert the basic schema defined by avro into the ColumnDataType.
    pub fn from_avro(schema: &AvroSchema) -> (r: Result<Self, String>)
        ensures
            match r {
                Ok(data_type) => column_type(*schema) == Ok::<ColumnDataType, Seq<char>>(data_type),
                Err(msg) => column_type(*schema) == Err::<ColumnDataType, Seq<char>>(msg@),
            },
        decreases schema,
    {
        let data_type = match &schema.kind {
            AvroKind::Null => ColumnDataType::Null,
            AvroKind::Boolean => ColumnDataType::Boolean,
            AvroKind::Int => ColumnDataType::Int32,
            AvroKind::Long => ColumnDataType::Int64,
            AvroKind::Float => ColumnDataType::Float,
            AvroKind::Double => ColumnDataType::Double,
            AvroKind::Bytes => ColumnDataType::Bytes,
            AvroKind::String => ColumnDataType::String,
            AvroKind::TimestampMillis => ColumnDataType::TimestampMillis,
            AvroKind::Union(variants) => {
                if variants.len() != 2 {
                    let mut msg = String::from_str("invalid avro union schema:");
                    msg.append(schema.debug.as_str());
                    msg.append(", expect at least two columns");
                    return Err(msg);
                }
                if let AvroKind::Null = &variants[0].kind {
                    return Self::from_avro(&variants[1]);
                } else {
                    let mut msg = String::from_str("invalid avro union schema:");
                    msg.append(schema.debug.as_str());
                    msg.append(", expect the first column is null");
                    return Err(msg);
                }
            },
            AvroKind::Record(_) | AvroKind::Other => {
                let mut msg = String::from_str("invalid avro basic schema:");
                msg.append(schema.debug.as_str());
                return Err(msg);
            },
        };
        Ok(data_type)
    }
}

impl Schema {
    /// The columns of a record, one for each field and in their order. A
    /// schema that is no record has no columns.
    pub fn from_avro(avro_schema: &AvroSchema) -> (r: Result<Self, String>)
        ensures
            match r {
                Ok(schema) => schema_columns(*avro_schema) == Ok::<
                    Seq<(Seq<char>, ColumnDataType)>,
                    Seq<char>,
                >(column_views(schema.column_schemas@)),
                Err(msg) => schema_columns(*avro_schema) == Err::<
                    Seq<(Seq<char>, ColumnDataType)>,
                    Seq<char>,
                >(msg@),
            },
    {
        if let AvroKind::Record(fields) = &avro_schema.kind {
            let mut column_schemas: Vec<ColumnSchema> = Vec::with_capacity(fields.len());
            let mut i: usize = 0;
            assert(fields@.take(0) =~= Seq::empty());
            assert(column_views(column_schemas@) =~= Seq::empty());
            while i < fields.len()
                invariant
                    i <= fields@.len(),
                    avro_schema.kind == AvroKind::Record(*fields),
                    columns_of(fields@.take(i as int)) == Ok::<
                        Seq<(Seq<char>, ColumnDataType)>,
                        Seq<char>,
                    >(column_views(column_schemas@)),
                decreases fields@.len() - i,
            {
                proof {
                    assert(fields@.take(i + 1).drop_last() == fields@.take(i as int));
                    assert(fields@.take(i + 1).last() == fields@[i as int]);
                }
                let ghost before = column_views(column_schemas@);
                let data_type = match ColumnDataType::from_avro(&fields[i].1) {
                    Ok(data_type) => data_type,
                    Err(e) => {
                        proof {
                            assert(columns_of(fields@.take(i + 1)) == Err::<
                                Seq<(Seq<char>, ColumnDataType)>,
                                Seq<char>,
                            >(e@));
                            lemma_columns_error_is_kept(fields@, i + 1);
                        }
                        return Err(e);
                    },
                };
                column_schemas.push(ColumnSchema { data_type, name: fields[i].0.clone() });
                assert(column_views(column_schemas@) =~= before.push(
                    (fields@[i as int].0@, data_type),
                ));
                i += 1;
            }
            assert(fields@.take(i as int) == fields@);
            Ok(Schema { column_schemas })
        } else {
            let mut msg = String::from_str("Unsupported schema:");
            msg.append(avro_schema.debug.as_str());
            Err(msg)
        }
    }

    /// The number of columns.
    pub fn num_cols(&self) -> (r: usize)
        ensures
            r == self.column_schemas@.len(),
    {
        self.column_schemas.len()
    }

    /// The index of the first column of the given name.
    pub fn col_idx(&self, name: &str) -> (r: Option<usize>)
        ensures
            match r {
                Some(i) => index_of_column(self.column_schemas@, name@) == Some(i as int),
                None => index_of_column(self.column_schemas@, name@) is None,
            },
    {
        let wanted = String::from_str(name);
        let mut i: usize = 0;
        while i < self.column_schemas.len()
            invariant
                i <= self.column_schemas@.len(),
                wanted@ == name@,
                index_of_column(self.column_schemas@.take(i as int), name@) is None,
            decreases self.column_schemas@.len() - i,
        {
            proof {
                let more = self.column_schemas@.take(i + 1);
                assert(more.drop_last() == self.column_schemas@.take(i as int));
                assert(more.last() == self.column_schemas@[i as int]);
            }
            if self.column_schemas[i].name == wanted {
                proof {
                    lemma_index_is_kept(self.column_schemas@, i + 1, name@);
                }
                return Some(i);
            }
            i += 1;
        }
        assert(self.column_schemas@.take(i as int) == self.column_schemas@);
        None
    }
}

/// A column that is found among the first columns is found among all.
proof fn lemma_index_is_kept(columns: Seq<ColumnSchema>, k: int, name: Seq<char>)
    requires
        0 <= k <= columns.len(),
        index_of_column(columns.take(k), name) is Some,
    ensures
        index_of_column(columns, name) == index_of_column(columns.take(k), name),
    decreases columns.len() - k,
{
    if k < columns.len() {
        assert(columns.take(k + 1).drop_last() == columns.take(k));
        lemma_index_is_kept(columns, k + 1, name);
    } else {
        assert(columns.take(k) == columns);
    }
}

/// The error of the first fields is the error of all.
proof fn lemma_columns_error_is_kept(fields: Seq<(String, AvroSchema)>, k: int)
    requires
        0 <= k <= fields.len(),
        columns_of(fields.take(k)) is Err,
    ensures
        columns_of(fields) == columns_of(fields.take(k)),
    decreases fields.len() - k,
{
    if k < fields.len() {
        assert(fields.take(k + 1).drop_last() == fields.take(k));
        lemma_columns_error_is_kept(fields, k + 1);
    } else {
        assert(fields.take(k) == fields);
    }
}

/// The rows of a result with their schema.
#[derive(Debug)]
pub struct QueriedRows {
    pub schema: Schema,
    pub rows: Vec<Row>,
}

impl Default for QueriedRows {
    fn default() -> (r: Self)
        ensures
            r.schema.column_schemas@.len() == 0,
            r.rows@.len() == 0,
    {
        QueriedRows { schema: Schema::default(), rows: Vec::new() }
    }
}

impl QueriedRows {
    pub fn with_capacity(schema: Schema, n: usize) -> (r: Self)
        ensures
            r.schema == schema,
            r.rows@.len() == 0,
    {
        Self { schema, rows: Vec::with_capacity(n) }
    }
}

/// What a query answers: a count of affected rows, or rows.
#[derive(Debug)]
pub enum QueryResponse {
    AffectedRows(u32),
    Rows(QueriedRows),
}

} // verus!
