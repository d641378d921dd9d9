//! What the server answers to a sql query.

use vstd::prelude::*;
use crate::errors::Error;
use crate::model::sql_query::row::{
    unsupported_type_message, ArrowColumn, RecordBatch, Row, RowBuilder,
};

verus! {

/// The response for a sql query.
#[derive(Debug)]
pub struct Response {
    /// The affected rows by the query sql.
    pub affected_rows: u32,
    /// The rows of the sql result.
    pub rows: Vec<Row>,
}

impl Default for Response {
    fn default() -> (r: Self)
        ensures
            r.affected_rows == 0,
            r.rows@.len() == 0,
    {
        Response { affected_rows: 0, rows: Vec::new() }
    }
}

/// What a query has put out: a count of affected rows, or rows.
#[derive(Debug)]
pub enum Output {
    AffectedRows(u32),
    Rows(Vec<Row>),
}

/// How the record batches of a payload are packed.
#[derive(Debug, Clone, Copy, PartialEq, Eq, Structural)]
pub enum Compression {
    Uncompressed,
    Zstd,
}

/// The bytes that a zstd frame unpacks to, where the bytes are such a frame.
pub uninterp spec fn zstd_decoded(bytes: Seq<u8>) -> Option<Seq<u8>>;

/// `zstd::stream::decode_all` on the bytes: what they unpack to, or the
/// failure as text where they are no zstd frame.
#[verifier::external_body]
fn zstd_decode_all(bytes: Vec<u8>) -> (r: Result<Vec<u8>, String>)
    ensures
        match r {
            Ok(unpacked) => zstd_decoded(bytes@) == Some(unpacked@),
            Err(_) => zstd_decoded(bytes@) is None,
        },
{
    zstd::stream::decode_all(std::io::Cursor::new(bytes)).map_err(|e| e.to_string())
}

/// The bytes of a batch once it is unpacked.
pub open spec fn unpacked(compression: Compression, bytes: Seq<u8>) -> Option<Seq<u8>> {
    match compression {
        Compression::Uncompressed => Some(bytes),
        Compression::Zstd => zstd_decoded(bytes),
    }
}

/// Unpacks the batches of a payload. It fails where one of them cannot be
/// unpacked.
pub fn unzip_batches(compression: Compression, byte_batches: Vec<Vec<u8>>) -> (r: Result<
    Vec<Vec<u8>>,
    Error,
>)
    ensures
        match r {
            Ok(unzipped) => {
                &&& unzipped@.len() == byte_batches@.len()
                &&& forall|i: int|
                    0 <= i < unzipped@.len() ==> unpacked(compression, byte_batches@[i]@) == Some(
                        (#[trigger] unzipped@[i])@,
                    )
            },
            Err(e) => {
                &&& e is DecodeArrowPayload
                &&& exists|i: int|
                    0 <= i < byte_batches@.len() && unpacked(
                        compression,
                        (#[trigger] byte_batches@[i])@,
                    ) is None
            },
        },
{
    let ghost all = byte_batches@;
    let mut unzipped: Vec<Vec<u8>> = Vec::new();
    for bytes_batch in it: byte_batches.into_iter()
        invariant
            it.seq() == all,
            unzipped@.len() == it.index(),
            forall|i: int|
                0 <= i < unzipped@.len() ==> unpacked(compression, all[i]@) == Some(
                    (#[trigger] unzipped@[i])@,
                ),
    {
        assert(bytes_batch == all[it.index()]);
        match compression {
            Compression::Uncompressed => {
                unzipped.push(bytes_batch);
            },
            Compression::Zstd => match zstd_decode_all(bytes_batch) {
                Ok(bytes) => {
                    unzipped.push(bytes);
                },
                Err(e) => {
                    return Err(Error::DecodeArrowPayload(e));
                },
            },
        }
    }
    Ok(unzipped)
}

/// `row` is the row of `batch` with the given index: it holds the value of
/// each column under the name of the column.
pub open spec fn row_of_batch(row: Row, batch: RecordBatch, index: int) -> bool {
    &&& row.columns@.len() == batch.columns@.len()
    &&& forall|c: int|
        0 <= c < row.columns@.len() ==> (#[trigger] row.columns@[c]).name == batch.fields@[c]
    &&& forall|c: int|
        0 <= c < row.columns@.len() ==> (#[trigger] row.columns@[c]).value@
            == batch.columns@[c].value(index)
}

/// `rows` are the rows of the batches, batch after batch.
pub open spec fn rows_of_batches(rows: Seq<Row>, batches: Seq<RecordBatch>) -> bool
    decreases batches.len(),
{
    if batches.len() == 0 {
        rows.len() == 0
    } else {
        let last = batches.last();
        let before = rows.len() - last.num_rows;
        &&& before >= 0
        &&& rows_of_batches(rows.take(before), batches.drop_last())
        &&& forall|i: int|
            0 <= i < last.num_rows ==> row_of_batch(#[trigger] rows[before + i], last, i)
    }
}

/// The first batch with a column of a type that rows cannot hold.
pub open spec fn first_bad_batch(batches: Seq<RecordBatch>) -> Option<int>
    decreases batches.len(),
{
    if batches.len() == 0 {
        None
    } else {
        match first_bad_batch(batches.drop_last()) {
            Some(b) => Some(b),
            None => if batches.last().unsupported() is Some {
                Some(batches.len() - 1)
            } else {
                None
            },
        }
    }
}

proof fn lemma_bad_batch_is_kept(batches: Seq<RecordBatch>, k: int)
    requires
        0 <= k <= batches.len(),
        first_bad_batch(batches.take(k)) is Some,
    ensures
        first_bad_batch(batches) == first_bad_batch(batches.take(k)),
    decreases batches.len() - k,
{
    if k < batches.len() {
        assert(batches.take(k + 1).drop_last() == batches.take(k));
        lemma_bad_batch_is_kept(batches, k + 1);
    } else {
        assert(batches.take(k) == batches);
    }
}

/// The rows of the record batches of a payload, batch after batch. A batch
/// with a column of a type that rows cannot hold fails them all.
pub fn build_rows(arrow_record_batches: Vec<RecordBatch>) -> (r: Result<Vec<Row>, Error>)
    requires
        forall|b: int|
            0 <= b < arrow_record_batches@.len() ==> (#[trigger] arrow_record_batches@[b]).wf(),
    ensures
        match r {
            Ok(rows) => {
                &&& first_bad_batch(arrow_record_batches@) is None
                &&& rows_of_batches(rows@, arrow_record_batches@)
            },
            Err(e) => {
                &&& first_bad_batch(arrow_record_batches@) matches Some(b)
                &&& arrow_record_batches@[b].unsupported() matches Some(c)
                &&& arrow_record_batches@[b].columns@[c] matches ArrowColumn::Unsupported(
                    arrow_type,
                )
                &&& e matches Error::BuildRows(msg)
                &&& msg@ == unsupported_type_message(arrow_type@)
            },
        },
{
    let ghost all = arrow_record_batches@;
    let mut rows: Vec<Row> = Vec::new();
    for record_batch in it: arrow_record_batches.into_iter()
        invariant
            it.seq() == all,
            forall|b: int| 0 <= b < all.len() ==> (#[trigger] all[b]).wf(),
            first_bad_batch(all.take(it.index())) is None,
            rows_of_batches(rows@, all.take(it.index())),
    {
        let ghost k = it.index();
        let ghost before = rows@;
        proof {
            assert(record_batch == all[k]);
            assert(all.take(k + 1).drop_last() == all.take(k));
            assert(all.take(k + 1).last() == record_batch);
        }
        let row_builder = match RowBuilder::with_arrow_record_batch(record_batch) {
            Ok(builder) => builder,
            Err(e) => {
                proof {
                    lemma_bad_batch_is_kept(all, k + 1);
                }
                return Err(e);
            },
        };
        let mut built = row_builder.build();
        assert forall|i: int| 0 <= i < record_batch.num_rows implies row_of_batch(
            #[trigger] built@[i],
            record_batch,
            i,
        ) by {
            assert(built@[i].columns@.len() == record_batch.columns@.len());
            assert forall|c: int| 0 <= c < built@[i].columns@.len() implies (
            #[trigger] built@[i].columns@[c]).value@ == record_batch.columns@[c].value(i) by {
                assert(built@[i].columns@[c].value == row_builder.row_values@[i]@[c]);
            }
        }
        rows.append(&mut built);
        proof {
            assert(rows@.take(before.len() as int) == before);
        }
    }
    assert(all.take(all.len() as int) == all);
    Ok(rows)
}

impl Response {
    /// The response with what a query has put out. A query that has put out
    /// nothing is an error.
    pub fn from_output(output: Option<Output>) -> (r: Result<Self, Error>)
        ensures
            match r {
                Ok(resp) => match output {
                    Some(Output::AffectedRows(affected)) => resp.affected_rows == affected
                        && resp.rows@.len() == 0,
                    Some(Output::Rows(rows)) => resp.affected_rows == 0 && resp.rows == rows,
                    None => false,
                },
                Err(e) => {
                    &&& output is None
                    &&& e matches Error::Unknown(msg)
                    &&& msg@ == "output is empty in sql query response"@
                },
            },
    {
        let output = match output {
            Some(output) => output,
            None => {
                return Err(
                    Error::Unknown(String::from_str("output is empty in sql query response")),
                );
            },
        };
        let resp = match output {
            Output::AffectedRows(affected) => Response { affected_rows: affected, rows: Vec::new() },
            Output::Rows(rows) => Response { affected_rows: 0, rows },
        };
        Ok(resp)
    }
}

} // verus!
