//! Validating a translated manifest against the original table and rebuilding
//! the table from it.
use vstd::prelude::*;
use crate::column::{
    CsvColumn, DenseCsvColumn, TranslatedDenseCsvColumn, ColumnView, EntryView, columns_view,
    dense_columns_view, entries_view, copy_texts,
};
use crate::densify::{densified, dense_values, densify_csv_columns, lemma_dense_values};
use crate::mapping::{ColumnMapping, zip_map, lemma_zip_map_domain};

verus! {

/// Why a manifest could not be applied, as mathematical values.
pub enum Fault {
    ColumnCount,
    /// Names the header of the column at fault.
    ValuesCount(Seq<char>),
    /// Names the header of the column at fault.
    Conflict(Seq<char>),
    ShortColumn,
}

/// Why a manifest could not be applied.
#[derive(Debug)]
pub enum TranslateError {
    /// The manifest has another number of entries than the table has columns.
    ColumnCount,
    /// The entry of this column lists another number of values than the
    /// column has distinct non-empty values.
    ValuesCount { header: String },
    /// The entry of this column is deleted and also lists values.
    Conflict { header: String },
    /// A column that is kept has fewer values than the first column has rows.
    ShortColumn,
}

impl View for TranslateError {
    type V = Fault;

    open spec fn view(&self) -> Fault {
        match self {
            TranslateError::ColumnCount => Fault::ColumnCount,
            TranslateError::ValuesCount { header } => Fault::ValuesCount(header@),
            TranslateError::Conflict { header } => Fault::Conflict(header@),
            TranslateError::ShortColumn => Fault::ShortColumn,
        }
    }
}

/// A rebuilt table: a header row and data rows.
#[derive(Debug)]
pub struct TranslatedTable {
    pub header: Vec<String>,
    pub rows: Vec<Vec<String>>,
}

/// A rebuilt table as mathematical strings.
pub struct TableView {
    pub header: Seq<Seq<char>>,
    pub rows: Seq<Seq<Seq<char>>>,
}

impl View for TranslatedTable {
    type V = TableView;

    open spec fn view(&self) -> TableView {
        TableView { header: self.header.deep_view(), rows: self.rows.deep_view() }
    }
}

/// What is wrong with one entry, checked against its densified column: a
/// value count that differs comes before a deleted column with values.
pub open spec fn entry_fault(d: ColumnView, e: EntryView) -> Option<Fault> {
    match e.values {
        Some(v) => if v.len() != d.values.len() {
            Some(Fault::ValuesCount(d.header))
        } else if e.delete {
            Some(Fault::Conflict(d.header))
        } else {
            None
        },
        None => None,
    }
}

/// The fault of the first entry from `i` on that has one.
pub open spec fn fault_from(dense: Seq<ColumnView>, entries: Seq<EntryView>, i: int) -> Option<Fault>
    decreases dense.len() - i,
{
    if 0 <= i < dense.len() {
        if entry_fault(dense[i], entries[i]) is Some {
            entry_fault(dense[i], entries[i])
        } else {
            fault_from(dense, entries, i + 1)
        }
    } else {
        None
    }
}

/// The first fault of a manifest against densified columns: the entry count
/// first, then each entry in column order.
pub open spec fn first_fault(dense: Seq<ColumnView>, entries: Seq<EntryView>) -> Option<Fault> {
    if dense.len() != entries.len() {
        Some(Fault::ColumnCount)
    } else {
        fault_from(dense, entries, 0)
    }
}

/// The substitution that an entry gives its column: the densified values,
/// paired in order with the listed ones; none for a column without values.
pub open spec fn mapping_for(d: ColumnView, e: EntryView) -> Map<Seq<char>, Seq<char>> {
    match e.values {
        Some(v) => zip_map(d.values, v),
        None => Map::empty(),
    }
}

/// Each column densified, in order.
pub open spec fn densified_all(cols: Seq<ColumnView>) -> Seq<ColumnView> {
    cols.map_values(|c: ColumnView| densified(c))
}

/// The positions of the entries that are not deleted, in order.
pub open spec fn kept_columns(entries: Seq<EntryView>) -> Seq<int>
    decreases entries.len(),
{
    if entries.len() == 0 {
        Seq::empty()
    } else {
        let init = kept_columns(entries.drop_last());
        if entries.last().delete {
            init
        } else {
            init.push(entries.len() - 1)
        }
    }
}

/// The header row of the output: the headers of the entries that are kept.
pub open spec fn output_header(entries: Seq<EntryView>) -> Seq<Seq<char>> {
    kept_columns(entries).map_values(|i: int| entries[i].header)
}

/// The number of rows: the number of values of the first column.
pub open spec fn row_count(cols: Seq<ColumnView>) -> int {
    if cols.len() == 0 {
        0
    } else {
        cols[0].values.len() as int
    }
}

/// Every kept column has a value for each row.
pub open spec fn rows_fit(cols: Seq<ColumnView>, entries: Seq<EntryView>) -> bool {
    forall|i: int|
        0 <= i < cols.len() && !entries[i].delete ==> row_count(cols) <= #[trigger] cols[i].values.len()
}

/// The output value of row `r` of a column: unchanged where the entry lists
/// no values, empty where the original is empty, else its translation.
pub open spec fn translated_cell(c: ColumnView, e: EntryView, r: int) -> Seq<char> {
    if e.values is None {
        c.values[r]
    } else if c.values[r].len() == 0 {
        Seq::empty()
    } else {
        mapping_for(densified(c), e)[c.values[r]]
    }
}

/// Row `r` of the output: the translated values of the kept columns.
pub open spec fn output_row(cols: Seq<ColumnView>, entries: Seq<EntryView>, r: int) -> Seq<Seq<char>> {
    kept_columns(entries).map_values(|i: int| translated_cell(cols[i], entries[i], r))
}

/// What translating the table `cols` with the manifest `entries` gives.
pub open spec fn translation_outcome(cols: Seq<ColumnView>, entries: Seq<EntryView>) -> Result<
    TableView,
    Fault,
> {
    match first_fault(densified_all(cols), entries) {
        Some(f) => Err(f),
        None => if !rows_fit(cols, entries) {
            Err(Fault::ShortColumn)
        } else {
            Ok(
                TableView {
                    header: output_header(entries),
                    rows: Seq::new(row_count(cols) as nat, |r: int| output_row(cols, entries, r)),
                },
            )
        },
    }
}

/// Where no entry from `j` on has a fault, each of them is without one.
pub proof fn lemma_no_fault_from(dense: Seq<ColumnView>, entries: Seq<EntryView>, j: int)
    requires
        0 <= j,
        fault_from(dense, entries, j) is None,
    ensures
        forall|i: int| j <= i < dense.len() ==> (#[trigger] entry_fault(dense[i], entries[i])) is None,
    decreases dense.len() - j,
{
    if j < dense.len() {
        lemma_no_fault_from(dense, entries, j + 1);
    }
}

/// The kept positions are in range, ascending, and exactly those not deleted.
pub proof fn lemma_kept_columns(entries: Seq<EntryView>)
    ensures
        forall|m: int| 0 <= m < kept_columns(entries).len() ==> 0 <= #[trigger] kept_columns(entries)[m] < entries.len(),
        forall|m: int, n: int| 0 <= m < n < kept_columns(entries).len() ==> #[trigger] kept_columns(entries)[m] < #[trigger] kept_columns(entries)[n],
        forall|i: int| #[trigger] kept_columns(entries).contains(i) <==> (0 <= i < entries.len() && !entries[i].delete),
    decreases entries.len(),
{
    if entries.len() > 0 {
        let init = entries.drop_last();
        lemma_kept_columns(init);
        let k = kept_columns(entries);
        let ki = kept_columns(init);
        assert forall|i: int| #[trigger] k.contains(i) <==> (0 <= i < entries.len() && !entries[i].delete) by {
            if ki.contains(i) {
                let m = choose|m: int| 0 <= m < ki.len() && ki[m] == i;
                assert(k[m] == i);
                assert(init[i] == entries[i]);
            }
            if k.contains(i) && i != entries.len() - 1 {
                let m = choose|m: int| 0 <= m < k.len() && k[m] == i;
                assert(ki[m] == i);
                assert(init[i] == entries[i]);
            }
            if 0 <= i < entries.len() - 1 && !entries[i].delete {
                assert(init[i] == entries[i]);
                assert(ki.contains(i));
                let m = choose|m: int| 0 <= m < ki.len() && ki[m] == i;
                assert(k[m] == i);
            }
            if i == entries.len() - 1 && !entries[i].delete {
                assert(k[k.len() - 1] == i);
            }
        }
    }
}

/// The positions of the entries that are not deleted.
fn kept_indices(entries: &Vec<TranslatedDenseCsvColumn>) -> (r: Vec<usize>)
    ensures
        r@.len() == kept_columns(entries_view(entries@)).len(),
        forall|m: int| 0 <= m < r@.len() ==> r@[m] as int == #[trigger] kept_columns(entries_view(entries@))[m],
{
    let ghost ev = entries_view(entries@);
    let mut out: Vec<usize> = Vec::new();
    let mut i: usize = 0;
    while i < entries.len()
        invariant
            i <= entries@.len(),
            ev == entries_view(entries@),
            out@.len() == kept_columns(ev.take(i as int)).len(),
            forall|m: int| 0 <= m < out@.len() ==> out@[m] as int == #[trigger] kept_columns(ev.take(i as int))[m],
        decreases entries@.len() - i,
    {
        assert(ev.take(i + 1).drop_last() =~= ev.take(i as int));
        assert(ev.take(i + 1).last() == ev[i as int]);
        if !entries[i].delete {
            out.push(i);
        }
        i = i + 1;
    }
    assert(ev.take(entries@.len() as int) =~= ev);
    out
}

/// Checks the manifest against the densified columns and builds the
/// substitution of each column.
pub fn build_mappings(dense: &Vec<DenseCsvColumn>, entries: &Vec<TranslatedDenseCsvColumn>) -> (r: Result<
    Vec<ColumnMapping>,
    TranslateError,
>)
    ensures
        match r {
            Ok(m) => {
                &&& first_fault(dense_columns_view(dense@), entries_view(entries@)) is None
                &&& m@.len() == dense@.len()
                &&& forall|i: int| 0 <= i < m@.len() ==> (#[trigger] m@[i]).well_formed()
                    && m@[i]@ == mapping_for(dense@[i]@, entries@[i]@)
            },
            Err(e) => first_fault(dense_columns_view(dense@), entries_view(entries@)) == Some(e@),
        },
{
    let ghost dv = dense_columns_view(dense@);
    let ghost ev = entries_view(entries@);
    if dense.len() != entries.len() {
        return Err(TranslateError::ColumnCount);
    }
    let mut out: Vec<ColumnMapping> = Vec::new();
    let mut i: usize = 0;
    while i < dense.len()
        invariant
            i <= dense@.len(),
            dense@.len() == entries@.len(),
            dv == dense_columns_view(dense@),
            ev == entries_view(entries@),
            first_fault(dv, ev) == fault_from(dv, ev, i as int),
            out@.len() == i,
            forall|k: int| 0 <= k < i ==> (#[trigger] out@[k]).well_formed()
                && out@[k]@ == mapping_for(dense@[k]@, entries@[k]@),
        decreases dense@.len() - i,
    {
        assert(dv[i as int] == dense@[i as int]@);
        assert(ev[i as int] == entries@[i as int]@);
        match &entries[i].values {
            Some(values) => {
                if values.len() != dense[i].values.len() {
                    return Err(TranslateError::ValuesCount { header: dense[i].header.clone() });
                }
                if entries[i].delete {
                    return Err(TranslateError::Conflict { header: dense[i].header.clone() });
                }
                let from = copy_texts(&dense[i].values);
                let to = copy_texts(values);
                out.push(ColumnMapping { from, to });
            },
            None => {
                let m = ColumnMapping { from: Vec::new(), to: Vec::new() };
                assert(m.from.deep_view() =~= Seq::<Seq<char>>::empty());
                out.push(m);
            },
        }
        i = i + 1;
    }
    Ok(out)
}

/// The manifest passed its checks against the columns, each column has its
/// substitution, and every kept column has a value for each row.
pub open spec fn ready_to_rebuild(
    columns: Seq<CsvColumn>,
    entries: Seq<TranslatedDenseCsvColumn>,
    mappings: Seq<ColumnMapping>,
) -> bool {
    &&& entries.len() == columns.len()
    &&& mappings.len() == columns.len()
    &&& forall|i: int| 0 <= i < columns.len() ==> (#[trigger] entry_fault(densified(columns[i]@), entries[i]@)) is None
    &&& forall|i: int| 0 <= i < columns.len() ==> (#[trigger] mappings[i]).well_formed()
        && mappings[i]@ == mapping_for(densified(columns[i]@), entries[i]@)
    &&& rows_fit(columns_view(columns), entries_view(entries))
}

/// The output value of row `r` of one column.
fn render_cell(column: &CsvColumn, entry: &TranslatedDenseCsvColumn, mapping: &ColumnMapping, r: usize) -> (v: String)
    requires
        r < column.values@.len(),
        entry_fault(densified(column@), entry@) is None,
        mapping.well_formed(),
        mapping@ == mapping_for(densified(column@), entry@),
    ensures
        v@ == translated_cell(column@, entry@, r as int),
{
    let value = &column.values[r];
    assert(column@.values[r as int] == value@);
    if entry.values.is_none() {
        value.clone()
    } else if value.as_str().is_empty() {
        String::new()
    } else {
        proof {
            lemma_dense_values(column@.values);
            assert(column@.values.contains(value@));
            let listed = entry@.values->0;
            lemma_zip_map_domain(dense_values(column@.values), listed);
        }
        mapping.translate_value(value).unwrap()
    }
}

/// Row `r` of the output.
fn render_row(
    columns: &Vec<CsvColumn>,
    entries: &Vec<TranslatedDenseCsvColumn>,
    mappings: &Vec<ColumnMapping>,
    kept: &Vec<usize>,
    r: usize,
) -> (row: Vec<String>)
    requires
        ready_to_rebuild(columns@, entries@, mappings@),
        r < row_count(columns_view(columns@)),
        kept@.len() == kept_columns(entries_view(entries@)).len(),
        forall|m: int| 0 <= m < kept@.len() ==> kept@[m] as int == #[trigger] kept_columns(entries_view(entries@))[m],
    ensures
        row.deep_view() == output_row(columns_view(columns@), entries_view(entries@), r as int),
{
    let ghost cv = columns_view(columns@);
    let ghost ev = entries_view(entries@);
    proof {
        lemma_kept_columns(ev);
    }
    let mut row: Vec<String> = Vec::new();
    let mut j: usize = 0;
    while j < kept.len()
        invariant
            j <= kept@.len(),
            row@.len() == j,
            cv == columns_view(columns@),
            ev == entries_view(entries@),
            ready_to_rebuild(columns@, entries@, mappings@),
            r < row_count(cv),
            kept@.len() == kept_columns(ev).len(),
            forall|m: int| 0 <= m < kept@.len() ==> kept@[m] as int == #[trigger] kept_columns(ev)[m],
            forall|m: int| 0 <= m < j ==> (#[trigger] row@[m])@ == translated_cell(cv[kept_columns(ev)[m]], ev[kept_columns(ev)[m]], r as int),
        decreases kept@.len() - j,
    {
        let i = kept[j];
        proof {
            lemma_kept_columns(ev);
        }
        assert(kept_columns(ev)[j as int] == i as int);
        assert(kept_columns(ev).contains(i as int));
        assert(cv[i as int] == columns@[i as int]@);
        assert(ev[i as int] == entries@[i as int]@);
        assert(entry_fault(densified(columns@[i as int]@), entries@[i as int]@) is None);
        assert(mappings@[i as int].well_formed());
        let cell = render_cell(&columns[i], &entries[i], &mappings[i], r);
        row.push(cell);
        j = j + 1;
    }
    assert(row.deep_view() =~= output_row(cv, ev, r as int));
    row
}

/// Rebuilds the table: the headers of the kept entries, then each row with
/// the kept columns' values translated.
pub fn reconstruct_rows(
    columns: &Vec<CsvColumn>,
    entries: &Vec<TranslatedDenseCsvColumn>,
    mappings: &Vec<ColumnMapping>,
) -> (t: TranslatedTable)
    requires
        ready_to_rebuild(columns@, entries@, mappings@),
    ensures
        t@ == (TableView {
            header: output_header(entries_view(entries@)),
            rows: Seq::new(
                row_count(columns_view(columns@)) as nat,
                |r: int| output_row(columns_view(columns@), entries_view(entries@), r),
            ),
        }),
{
    let ghost cv = columns_view(columns@);
    let ghost ev = entries_view(entries@);
    let kept = kept_indices(entries);
    proof {
        lemma_kept_columns(ev);
    }
    let mut header: Vec<String> = Vec::new();
    let mut j: usize = 0;
    while j < kept.len()
        invariant
            j <= kept@.len(),
            header@.len() == j,
            ev == entries_view(entries@),
            kept@.len() == kept_columns(ev).len(),
            forall|m: int| 0 <= m < kept@.len() ==> kept@[m] as int == #[trigger] kept_columns(ev)[m],
            forall|m: int| 0 <= m < j ==> (#[trigger] header@[m])@ == ev[kept_columns(ev)[m]].header,
        decreases kept@.len() - j,
    {
        let i = kept[j];
        proof {
            lemma_kept_columns(ev);
        }
        assert(kept_columns(ev)[j as int] == i as int);
        assert(kept_columns(ev).contains(i as int));
        assert(ev[i as int] == entries@[i as int]@);
        header.push(entries[i].header.clone());
        j = j + 1;
    }
    assert(header.deep_view() =~= output_header(ev));
    let n_rows: usize = if columns.len() == 0 { 0 } else { columns[0].values.len() };
    assert(n_rows == row_count(cv));
    let mut rows: Vec<Vec<String>> = Vec::new();
    let mut r: usize = 0;
    while r < n_rows
        invariant
            r <= n_rows,
            n_rows == row_count(cv),
            rows@.len() == r,
            cv == columns_view(columns@),
            ev == entries_view(entries@),
            ready_to_rebuild(columns@, entries@, mappings@),
            kept@.len() == kept_columns(ev).len(),
            forall|m: int| 0 <= m < kept@.len() ==> kept@[m] as int == #[trigger] kept_columns(ev)[m],
            forall|m: int| 0 <= m < r ==> (#[trigger] rows@[m]).deep_view() == output_row(cv, ev, m),
        decreases n_rows - r,
    {
        let row = render_row(columns, entries, mappings, &kept, r);
        rows.push(row);
        r = r + 1;
    }
    let t = TranslatedTable { header, rows };
    assert(t@.rows =~= Seq::new(row_count(cv) as nat, |m: int| output_row(cv, ev, m)));
    t
}

/// Whether every kept column has a value for each row.
fn columns_fit(columns: &Vec<CsvColumn>, entries: &Vec<TranslatedDenseCsvColumn>) -> (b: bool)
    requires
        entries@.len() == columns@.len(),
    ensures
        b == rows_fit(columns_view(columns@), entries_view(entries@)),
{
    let ghost cv = columns_view(columns@);
    let ghost ev = entries_view(entries@);
    if columns.len() == 0 {
        return true;
    }
    let n_rows = columns[0].values.len();
    let mut i: usize = 0;
    while i < columns.len()
        invariant
            i <= columns@.len(),
            entries@.len() == columns@.len(),
            cv == columns_view(columns@),
            ev == entries_view(entries@),
            n_rows == row_count(cv),
            forall|k: int| 0 <= k < i && !ev[k].delete ==> row_count(cv) <= #[trigger] cv[k].values.len(),
        decreases columns@.len() - i,
    {
        assert(cv[i as int] == columns@[i as int]@);
        assert(ev[i as int] == entries@[i as int]@);
        if !entries[i].delete && columns[i].values.len() < n_rows {
            assert(!(row_count(cv) <= cv[i as int].values.len()));
            return false;
        }
        i = i + 1;
    }
    true
}

/// Translates the table `columns` with the manifest `entries`: checks the
/// manifest against the table's densified columns, then rebuilds the table.
pub fn translate_columns(columns: &Vec<CsvColumn>, entries: &Vec<TranslatedDenseCsvColumn>) -> (r: Result<
    TranslatedTable,
    TranslateError,
>)
    ensures
        match r {
            Ok(t) => translation_outcome(columns_view(columns@), entries_view(entries@)) == Ok::<
                TableView,
                Fault,
            >(t@),
            Err(e) => translation_outcome(columns_view(columns@), entries_view(entries@)) == Err::<
                TableView,
                Fault,
            >(e@),
        },
{
    let ghost cv = columns_view(columns@);
    let ghost ev = entries_view(entries@);
    let dense = densify_csv_columns(columns.as_slice());
    assert(dense_columns_view(dense@) =~= densified_all(cv));
    let mappings = match build_mappings(&dense, entries) {
        Ok(m) => m,
        Err(e) => {
            return Err(e);
        },
    };
    proof {
        lemma_no_fault_from(densified_all(cv), ev, 0);
        assert forall|i: int| 0 <= i < columns@.len() implies (#[trigger] entry_fault(
            densified(columns@[i]@),
            entries@[i]@,
        )) is None by {
            assert(densified_all(cv)[i] == densified(columns@[i]@));
            assert(ev[i] == entries@[i]@);
        }
    }
    if !columns_fit(columns, entries) {
        return Err(TranslateError::ShortColumn);
    }
    Ok(reconstruct_rows(columns, entries, &mappings))
}

} // verus!
