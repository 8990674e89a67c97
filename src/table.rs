//! Reading a table into columns: the header row names the columns, and the
//! i-th field of each record goes to the i-th column.
use vstd::prelude::*;
use crate::column::{CsvColumn, ColumnView, columns_view};

verus! {

/// What the csv crate reads from `data` (comma-delimited, with a header row,
/// every record as wide as the first): the header row and the records, or,
/// where it reports an error, the record number of the error's position
/// (counting the header row as record 0), if the error has a position.
pub uninterp spec fn csv_fields_of(data: Seq<u8>) -> Result<(Seq<Seq<char>>, Seq<Seq<Seq<char>>>), Option<u64>>;

/// Relies on csv::Reader::from_reader, with its `headers` and `records`, to
/// split `data` into a header row and records of fields, and on
/// csv::Error::position and csv::Position::record for where an error arose;
/// all of it depends on the bytes alone.
#[verifier::external_body]
fn read_csv_fields(data: &[u8]) -> (r: Result<(Vec<String>, Vec<Vec<String>>), Option<u64>>)
    ensures
        match r {
            Ok(t) => csv_fields_of(data@) == Ok::<_, Option<u64>>((t.0.deep_view(), t.1.deep_view())),
            Err(p) => csv_fields_of(data@) == Err::<(Seq<Seq<char>>, Seq<Seq<Seq<char>>>), _>(p),
        },
{
    let located = |e: csv::Error| e.position().map(|p| p.record());
    let mut reader = csv::Reader::from_reader(data);
    let headers: Vec<String> = reader.headers().map_err(located)?.iter().map(String::from).collect();
    let records = reader
        .records()
        .map(|rec| rec.map(|fields| fields.iter().map(String::from).collect()))
        .collect::<Result<Vec<Vec<String>>, csv::Error>>()
        .map_err(located)?;
    Ok((headers, records))
}

/// Why a table could not be read: bad quoting, a record of another width
/// than the first, or text that is not UTF-8.
#[derive(Debug)]
pub enum TableError {
    /// The header row could not be read.
    Header,
    /// The data record at this index (counting from 0 after the header row)
    /// could not be read.
    Record { index: u64 },
    /// The error came without a position.
    Malformed,
}

/// `e` is the error that a failure at csv record number `pos` gives.
pub open spec fn error_at(e: TableError, pos: Option<u64>) -> bool {
    match pos {
        None => e is Malformed,
        Some(n) => if n == 0 {
            e is Header
        } else {
            e matches TableError::Record { index } && index == n - 1
        },
    }
}

/// The values that column `i` receives: the i-th field of each record that
/// has one, in record order.
pub open spec fn column_values(records: Seq<Seq<Seq<char>>>, i: int) -> Seq<Seq<char>>
    decreases records.len(),
{
    if records.len() == 0 {
        Seq::empty()
    } else {
        let init = column_values(records.drop_last(), i);
        if i < records.last().len() {
            init.push(records.last()[i])
        } else {
            init
        }
    }
}

/// The columns that a header row and records make, by position.
pub open spec fn zip_columns(headers: Seq<Seq<char>>, records: Seq<Seq<Seq<char>>>) -> Seq<ColumnView> {
    Seq::new(
        headers.len(),
        |i: int| ColumnView { header: headers[i], values: column_values(records, i) },
    )
}

/// The values of column `i`.
fn collect_column(records: &Vec<Vec<String>>, i: usize) -> (r: Vec<String>)
    ensures
        r.deep_view() == column_values(records.deep_view(), i as int),
{
    let ghost recs = records.deep_view();
    let mut out: Vec<String> = Vec::new();
    let mut k: usize = 0;
    while k < records.len()
        invariant
            k <= recs.len(),
            recs == records.deep_view(),
            out.deep_view() == column_values(recs.take(k as int), i as int),
        decreases recs.len() - k,
    {
        assert(recs.take(k + 1).drop_last() =~= recs.take(k as int));
        assert(recs.take(k + 1).last() == recs[k as int]);
        if i < records[k].len() {
            let ghost before = out.deep_view();
            out.push(records[k][i].clone());
            assert(out.deep_view() =~= before.push(recs[k as int][i as int]));
        }
        k = k + 1;
    }
    assert(recs.take(recs.len() as int) =~= recs);
    out
}

/// Builds the columns named by `headers` from `records`: the i-th field of
/// each record goes to the i-th column; a record with fewer fields leaves the
/// trailing columns without a value for it, and fields past the last header
/// are dropped.
pub fn columns_from_records(headers: &Vec<String>, records: &Vec<Vec<String>>) -> (r: Vec<CsvColumn>)
    ensures
        columns_view(r@) == zip_columns(headers.deep_view(), records.deep_view()),
{
    let mut out: Vec<CsvColumn> = Vec::new();
    let mut i: usize = 0;
    while i < headers.len()
        invariant
            i <= headers@.len(),
            out@.len() == i,
            forall|k: int| 0 <= k < i ==> #[trigger] out@[k]@ == zip_columns(
                headers.deep_view(),
                records.deep_view(),
            )[k],
        decreases headers@.len() - i,
    {
        let values = collect_column(records, i);
        out.push(CsvColumn { header: headers[i].clone(), values });
        i = i + 1;
    }
    assert(columns_view(out@) =~= zip_columns(headers.deep_view(), records.deep_view()));
    out
}

/// Reads the columns of the table that `data` holds.
pub fn parse_csv(data: &[u8]) -> (r: Result<Vec<CsvColumn>, TableError>)
    ensures
        match r {
            Ok(cols) => csv_fields_of(data@) matches Ok(t) && columns_view(cols@) == zip_columns(
                t.0,
                t.1,
            ),
            Err(e) => csv_fields_of(data@) matches Err(pos) && error_at(e, pos),
        },
{
    match read_csv_fields(data) {
        Ok(t) => Ok(columns_from_records(&t.0, &t.1)),
        Err(None) => Err(TableError::Malformed),
        Err(Some(n)) => if n == 0 {
            Err(TableError::Header)
        } else {
            Err(TableError::Record { index: n - 1 })
        },
    }
}

} // verus!
