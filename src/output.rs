//! Encoding a rebuilt table as comma-separated text.
use vstd::prelude::*;
use crate::translate::TranslatedTable;

verus! {

/// The bytes that the csv crate writes for one record: its fields, quoted
/// where needed, separated by commas and ended by a line terminator.
pub uninterp spec fn csv_record_of(fields: Seq<Seq<char>>) -> Seq<u8>;

/// Relies on csv::Writer (from_writer, write_record, into_inner) to encode
/// one record into a byte buffer; the bytes depend on the fields alone. A new
/// writer over a `Vec` does not fail: the `Vec` gives no I/O error, and the
/// first record it writes sets the field count that it checks.
#[verifier::external_body]
fn encode_csv_record(fields: &Vec<String>) -> (r: Option<Vec<u8>>)
    ensures
        r is Some,
        r matches Some(b) ==> b@ == csv_record_of(fields.deep_view()),
{
    let mut writer = csv::Writer::from_writer(Vec::new());
    writer.write_record(fields).ok()?;
    writer.into_inner().ok()
}

/// The encoding of `records`, one after another.
pub open spec fn csv_text(records: Seq<Seq<Seq<char>>>) -> Seq<u8>
    decreases records.len(),
{
    if records.len() == 0 {
        Seq::empty()
    } else {
        csv_text(records.drop_last()) + csv_record_of(records.last())
    }
}

/// The table as comma-separated text: the header row, then the data rows.
pub fn render_csv(table: &TranslatedTable) -> (r: Vec<u8>)
    ensures
        r@ == csv_text(seq![table@.header] + table@.rows),
{
    let ghost records = seq![table@.header] + table@.rows;
    let mut out = encode_csv_record(&table.header).unwrap();
    assert(records.take(1).drop_last() =~= Seq::<Seq<Seq<char>>>::empty());
    assert(records.take(1).last() == table@.header);
    assert(csv_text(records.take(1).drop_last()) =~= Seq::<u8>::empty());
    assert(csv_text(records.take(1)) =~= csv_record_of(table@.header));
    let mut i: usize = 0;
    while i < table.rows.len()
        invariant
            i <= table.rows@.len(),
            records == seq![table@.header] + table@.rows,
            out@ == csv_text(records.take(i + 1)),
        decreases table.rows@.len() - i,
    {
        let mut line = encode_csv_record(&table.rows[i]).unwrap();
        assert(records.take(i + 2).drop_last() =~= records.take(i + 1));
        assert(records.take(i + 2).last() == table.rows@[i as int].deep_view());
        out.append(&mut line);
        i = i + 1;
    }
    assert(records.take(i + 1) =~= records);
    out
}

} // verus!
