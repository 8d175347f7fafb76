//! Tables written out as comma-separated values, by the `csv` crate.

use crate::state::error::AppStateError;
use vstd::prelude::*;

verus! {

/// The error type of the `csv` crate.
#[verifier::external_type_specification]
#[verifier::external_body]
pub struct ExCsvError(csv::Error);

/// The error type of `std::io`.
#[verifier::external_type_specification]
#[verifier::external_body]
pub struct ExIoError(std::io::Error);

/// A `csv::Writer` in its default configuration that writes to bytes in memory.
#[verifier::external_body]
pub struct CsvWriter {
    inner: csv::Writer<Vec<u8>>,
}

/// The records that the writer has taken whole so far, each a sequence of fields.
pub uninterp spec fn csv_written(w: CsvWriter) -> Seq<Seq<Seq<char>>>;

/// The bytes that a writer hands over after it has taken exactly `records`.
pub uninterp spec fn csv_bytes(records: Seq<Seq<Seq<char>>>) -> Seq<u8>;

/// `csv::Writer::from_writer` on an empty vector of bytes: a writer that has
/// taken no record.
#[verifier::external_body]
fn writer_new() -> (w: CsvWriter)
    ensures
        csv_written(w) == Seq::<Seq<Seq<char>>>::empty(),
{
    CsvWriter { inner: csv::Writer::from_writer(Vec::new()) }
}

/// The writer takes a record of `fields` fields after `records`: it takes
/// any record first, and after that only records as long as the first.
pub open spec fn takes(records: Seq<Seq<Seq<char>>>, fields: nat) -> bool {
    records.len() == 0 || records[0].len() == fields
}

/// Every record has as many fields as the first.
pub open spec fn even(records: Seq<Seq<Seq<char>>>) -> bool {
    forall|i: int| 0 <= i < records.len() ==> (#[trigger] records[i]).len() == records[0].len()
}

/// `csv::Writer::write_record` on a writer whose sink is bytes in memory. It
/// succeeds exactly where the record is the first or has as many fields as
/// the first: the sink cannot fail, so a record of another length is all that
/// the writer refuses. Where it succeeds, the writer has taken the record
/// after those it had. A writer that refused a record is not handed back.
#[verifier::external_body]
fn write_record(w: CsvWriter, record: &Vec<String>) -> (r: Result<CsvWriter, csv::Error>)
    ensures
        r is Ok <==> takes(csv_written(w), record.deep_view().len()),
        r matches Ok(next) ==> csv_written(next) == csv_written(w).push(record.deep_view()),
{
    let mut w = w;
    match w.inner.write_record(record) {
        Ok(()) => Ok(w),
        Err(e) => Err(e),
    }
}

/// `csv::Writer::into_inner`, which flushes the writer first. It succeeds,
/// since flushing into bytes in memory cannot fail, and the bytes are those
/// of the records taken.
#[verifier::external_body]
fn into_inner(w: CsvWriter) -> (r: Result<Vec<u8>, std::io::Error>)
    ensures
        r is Ok,
        r->Ok_0@ == csv_bytes(csv_written(w)),
{
    match w.inner.into_inner() {
        Ok(bytes) => Ok(bytes),
        Err(e) => Err(e.into_error()),
    }
}

/// The rows as comma-separated values, one record for each row in the order
/// given. This succeeds exactly where every row has as many fields as the
/// first; else the writer refuses the first row of another length, and its
/// refusal comes back as the error.
pub fn encode(rows: &Vec<Vec<String>>) -> (r: Result<Vec<u8>, AppStateError>)
    ensures
        r is Ok <==> even(rows.deep_view()),
        match r {
            Ok(bytes) => bytes@ == csv_bytes(rows.deep_view()),
            Err(e) => e is CSV,
        },
{
    let ghost records = rows.deep_view();
    let mut wtr = writer_new();
    let mut i: usize = 0;
    assert(records.take(0) =~= Seq::empty());
    while i < rows.len()
        invariant
            i <= rows.len(),
            records == rows.deep_view(),
            csv_written(wtr) == records.take(i as int),
            forall|k: int| 0 <= k < i ==> (#[trigger] records[k]).len() == records[0].len(),
        decreases rows.len() - i,
    {
        assert(records[i as int] == rows[i as int].deep_view());
        assert(i > 0 ==> records.take(i as int)[0] == records[0]);
        wtr = match write_record(wtr, &rows[i]) {
            Ok(next) => next,
            Err(source) => {
                assert(records[i as int].len() != records[0].len());
                return Err(AppStateError::CSV { source });
            },
        };
        assert(records.take(i + 1) =~= records.take(i as int).push(records[i as int]));
        i += 1;
    }
    assert(records.take(i as int) =~= records);
    match into_inner(wtr) {
        Ok(bytes) => Ok(bytes),
        Err(source) => Err(AppStateError::IO { source }),
    }
}

} // verus!
