//! Properties of densification and translation, proved over the models.
use vstd::prelude::*;
use crate::column::{ColumnView, EntryView};
use crate::densify::{dense_values, densified, is_dense_of, lemma_dense_values};
use crate::mapping::{zip_map, lemma_zip_map_at};
use crate::text::{text_lt, strictly_ascending, lemma_text_lt_irreflexive, lemma_text_lt_transitive};
use crate::translate::{
    Fault, TableView, entry_fault, fault_from, first_fault, densified_all, kept_columns,
    output_header, output_row, row_count, rows_fit, translated_cell, translation_outcome,
    lemma_no_fault_from, lemma_kept_columns,
};

verus! {

proof fn lemma_ascending_unique(a: Seq<Seq<char>>, b: Seq<Seq<char>>)
    requires
        strictly_ascending(a),
        strictly_ascending(b),
        forall|x: Seq<char>| a.contains(x) <==> b.contains(x),
    ensures
        a == b,
    decreases a.len(),
{
    if a.len() == 0 {
        if b.len() > 0 {
            assert(b.contains(b[0]));
        }
        assert(a =~= b);
    } else {
        assert(a.contains(a[0]));
        assert(b.contains(a[0]));
        assert(b.contains(b[0]));
        assert(a.contains(b[0]));
        if a[0] != b[0] {
            let k = choose|k: int| 0 <= k < b.len() && b[k] == a[0];
            let m = choose|m: int| 0 <= m < a.len() && a[m] == b[0];
            assert(k > 0 && m > 0);
            assert(text_lt(b[0], b[k]));
            assert(text_lt(a[0], a[m]));
            lemma_text_lt_transitive(a[0], b[0], a[0]);
            lemma_text_lt_irreflexive(a[0]);
        }
        let ta = a.drop_first();
        let tb = b.drop_first();
        assert forall|x: Seq<char>| ta.contains(x) <==> tb.contains(x) by {
            if ta.contains(x) {
                let k = choose|k: int| 0 <= k < ta.len() && ta[k] == x;
                assert(a[k + 1] == x);
                assert(text_lt(a[0], a[k + 1]));
                lemma_text_lt_irreflexive(x);
                assert(b.contains(x));
                let m = choose|m: int| 0 <= m < b.len() && b[m] == x;
                assert(m != 0);
                assert(tb[m - 1] == x);
            }
            if tb.contains(x) {
                let k = choose|k: int| 0 <= k < tb.len() && tb[k] == x;
                assert(b[k + 1] == x);
                assert(text_lt(b[0], b[k + 1]));
                lemma_text_lt_irreflexive(x);
                assert(a.contains(x));
                let m = choose|m: int| 0 <= m < a.len() && a[m] == x;
                assert(m != 0);
                assert(ta[m - 1] == x);
            }
        }
        assert forall|i: int, j: int| 0 <= i < j < ta.len() implies text_lt(ta[i], ta[j]) by {
            assert(ta[i] == a[i + 1] && ta[j] == a[j + 1]);
        }
        assert forall|i: int, j: int| 0 <= i < j < tb.len() implies text_lt(tb[i], tb[j]) by {
            assert(tb[i] == b[i + 1] && tb[j] == b[j + 1]);
        }
        lemma_ascending_unique(ta, tb);
        assert(a =~= seq![a[0]] + ta);
        assert(b =~= seq![b[0]] + tb);
    }
}

/// Densification drops empty values, collapses duplicates and sorts: its
/// result is the one strictly ascending sequence that holds exactly the
/// non-empty values, so it depends on the set of values alone.
pub proof fn law_densify_canonical(vals: Seq<Seq<char>>, d: Seq<Seq<char>>)
    requires
        is_dense_of(d, vals),
    ensures
        d == dense_values(vals),
        is_dense_of(dense_values(vals), vals),
{
    lemma_dense_values(vals);
    lemma_ascending_unique(d, dense_values(vals));
}

/// The manifest that extraction writes for `cols`, copied back unchanged:
/// each column keeps its header and lists its densified values.
pub open spec fn verbatim_manifest(cols: Seq<ColumnView>) -> Seq<EntryView> {
    cols.map_values(
        |c: ColumnView| EntryView { header: c.header, values: Some(dense_values(c.values)), delete: false },
    )
}

/// Every column has one value per row.
pub open spec fn rectangular(cols: Seq<ColumnView>) -> bool {
    forall|i: int| 0 <= i < cols.len() ==> #[trigger] cols[i].values.len() == row_count(cols)
}

proof fn lemma_fault_from_none(dense: Seq<ColumnView>, entries: Seq<EntryView>, j: int)
    requires
        0 <= j,
        forall|i: int| j <= i < dense.len() ==> (#[trigger] entry_fault(dense[i], entries[i])) is None,
    ensures
        fault_from(dense, entries, j) is None,
    decreases dense.len() - j,
{
    if j < dense.len() {
        lemma_fault_from_none(dense, entries, j + 1);
    }
}

proof fn lemma_fault_skip(dense: Seq<ColumnView>, entries: Seq<EntryView>, j: int, i: int)
    requires
        0 <= j <= i,
        forall|k: int| j <= k < i ==> (#[trigger] entry_fault(dense[k], entries[k])) is None,
    ensures
        fault_from(dense, entries, j) == fault_from(dense, entries, i),
    decreases i - j,
{
    if j < i {
        lemma_fault_skip(dense, entries, j + 1, i);
    }
}

proof fn lemma_all_kept(entries: Seq<EntryView>)
    requires
        forall|i: int| 0 <= i < entries.len() ==> !(#[trigger] entries[i]).delete,
    ensures
        kept_columns(entries) == Seq::new(entries.len(), |i: int| i),
    decreases entries.len(),
{
    if entries.len() > 0 {
        let init = entries.drop_last();
        assert forall|i: int| 0 <= i < init.len() implies !(#[trigger] init[i]).delete by {
            assert(init[i] == entries[i]);
        }
        lemma_all_kept(init);
        assert(kept_columns(entries) =~= Seq::new(entries.len(), |i: int| i));
    }
}

/// Extracting a table and translating it with the manifest copied verbatim
/// gives the table back: same header, same rows, same order.
pub proof fn law_round_trip(cols: Seq<ColumnView>)
    requires
        rectangular(cols),
    ensures
        translation_outcome(cols, verbatim_manifest(cols)) == Ok::<TableView, Fault>(
            TableView {
                header: cols.map_values(|c: ColumnView| c.header),
                rows: Seq::new(
                    row_count(cols) as nat,
                    |r: int| cols.map_values(|c: ColumnView| c.values[r]),
                ),
            },
        ),
{
    let entries = verbatim_manifest(cols);
    let dense = densified_all(cols);
    assert forall|i: int| 0 <= i < dense.len() implies (#[trigger] entry_fault(dense[i], entries[i])) is None by {
        assert(dense[i] == densified(cols[i]));
        assert(entries[i].values == Some(dense_values(cols[i].values)));
    }
    lemma_fault_from_none(dense, entries, 0);
    assert(first_fault(dense, entries) is None);
    assert(rows_fit(cols, entries)) by {
        assert forall|i: int| 0 <= i < cols.len() && !entries[i].delete implies row_count(cols)
            <= #[trigger] cols[i].values.len() by {
            assert(cols[i].values.len() == row_count(cols));
        }
    }
    assert forall|i: int| 0 <= i < entries.len() implies !(#[trigger] entries[i]).delete by {}
    lemma_all_kept(entries);
    assert(output_header(entries) =~= cols.map_values(|c: ColumnView| c.header));
    assert forall|r: int| 0 <= r < row_count(cols) implies #[trigger] output_row(cols, entries, r)
        == cols.map_values(|c: ColumnView| c.values[r]) by {
        assert forall|i: int| 0 <= i < cols.len() implies translated_cell(cols[i], entries[i], r)
            == cols[i].values[r] by {
            let c = cols[i];
            let v = c.values[r];
            assert(c.values.len() == row_count(cols));
            if v.len() != 0 {
                let d = dense_values(c.values);
                lemma_dense_values(c.values);
                assert(c.values.contains(v));
                assert(d.contains(v));
                let k = choose|k: int| 0 <= k < d.len() && d[k] == v;
                assert forall|m: int| k < m < d.len() implies d[m] != d[k] by {
                    assert(text_lt(d[k], d[m]));
                    lemma_text_lt_irreflexive(d[k]);
                }
                lemma_zip_map_at(d, d, k);
                assert(zip_map(d, d)[v] == v);
            }
        }
        assert(output_row(cols, entries, r) =~= cols.map_values(|c: ColumnView| c.values[r]));
    }
    assert(Seq::new(row_count(cols) as nat, |r: int| output_row(cols, entries, r)) =~= Seq::new(
        row_count(cols) as nat,
        |r: int| cols.map_values(|c: ColumnView| c.values[r]),
    ));
}

/// A column whose entry lists no values and is not deleted appears in the
/// output unchanged, in every row, empty values included.
pub proof fn law_pass_through(cols: Seq<ColumnView>, entries: Seq<EntryView>, i: int)
    requires
        translation_outcome(cols, entries) is Ok,
        0 <= i < cols.len(),
        entries[i].values is None,
        !entries[i].delete,
    ensures
        kept_columns(entries).contains(i),
        forall|m: int, r: int|
            0 <= m < kept_columns(entries).len() && kept_columns(entries)[m] == i && 0 <= r < row_count(cols)
                ==> (translation_outcome(cols, entries)->Ok_0.rows[r][m] == cols[i].values[r]
                && translation_outcome(cols, entries)->Ok_0.header[m] == entries[i].header),
{
    lemma_kept_columns(entries);
}

/// A translated column renders an empty original value as empty.
pub proof fn law_empty_stays_empty(cols: Seq<ColumnView>, entries: Seq<EntryView>, i: int, r: int)
    requires
        translation_outcome(cols, entries) is Ok,
        0 <= i < cols.len(),
        0 <= r < row_count(cols),
        cols[i].values[r].len() == 0,
    ensures
        forall|m: int|
            0 <= m < kept_columns(entries).len() && kept_columns(entries)[m] == i
                ==> #[trigger] translation_outcome(cols, entries)->Ok_0.rows[r][m] == Seq::<char>::empty(),
{
    lemma_kept_columns(entries);
    assert(cols[i].values[r] =~= Seq::<char>::empty());
}

/// Deleted columns leave the output: the output's columns are exactly the
/// entries that are not deleted, in their original order, so the columns
/// after a deleted one move left.
pub proof fn law_deletion(cols: Seq<ColumnView>, entries: Seq<EntryView>)
    requires
        translation_outcome(cols, entries) is Ok,
    ensures
        forall|i: int| 0 <= i < entries.len() ==> (#[trigger] kept_columns(entries).contains(i) <==> !entries[i].delete),
        forall|m: int, n: int| 0 <= m < n < kept_columns(entries).len() ==> #[trigger] kept_columns(entries)[m] < #[trigger] kept_columns(entries)[n],
        translation_outcome(cols, entries)->Ok_0.header.len() == kept_columns(entries).len(),
        forall|m: int| 0 <= m < kept_columns(entries).len() ==> #[trigger] translation_outcome(cols, entries)->Ok_0.header[m] == entries[kept_columns(entries)[m]].header,
        forall|r: int| 0 <= r < row_count(cols) ==> (#[trigger] translation_outcome(cols, entries)->Ok_0.rows[r]).len() == kept_columns(entries).len(),
{
    lemma_kept_columns(entries);
}

/// A manifest with another number of entries than the table has columns fails.
pub proof fn law_column_count_mismatch(cols: Seq<ColumnView>, entries: Seq<EntryView>)
    requires
        entries.len() != cols.len(),
    ensures
        translation_outcome(cols, entries) == Err::<TableView, Fault>(Fault::ColumnCount),
{
}

/// An entry that lists another number of values than its column has distinct
/// non-empty values makes the translation fail; where no entry before it is
/// at fault, the failure names that column's header.
pub proof fn law_values_count_mismatch(cols: Seq<ColumnView>, entries: Seq<EntryView>, i: int)
    requires
        entries.len() == cols.len(),
        0 <= i < cols.len(),
        entries[i].values is Some,
        entries[i].values->0.len() != dense_values(cols[i].values).len(),
    ensures
        translation_outcome(cols, entries) is Err,
        (forall|k: int| 0 <= k < i ==> (#[trigger] entry_fault(densified(cols[k]), entries[k])) is None)
            ==> translation_outcome(cols, entries) == Err::<TableView, Fault>(Fault::ValuesCount(cols[i].header)),
{
    let dense = densified_all(cols);
    assert(dense[i] == densified(cols[i]));
    if fault_from(dense, entries, 0) is None {
        lemma_no_fault_from(dense, entries, 0);
    }
    if forall|k: int| 0 <= k < i ==> (#[trigger] entry_fault(densified(cols[k]), entries[k])) is None {
        assert forall|k: int| 0 <= k < i implies (#[trigger] entry_fault(dense[k], entries[k])) is None by {
            assert(dense[k] == densified(cols[k]));
        }
        lemma_fault_skip(dense, entries, 0, i);
    }
}

/// An entry that is deleted and also lists values makes the translation
/// fail; where its value count is right and no entry before it is at fault,
/// the failure is a conflict naming that column's header.
pub proof fn law_conflict(cols: Seq<ColumnView>, entries: Seq<EntryView>, i: int)
    requires
        entries.len() == cols.len(),
        0 <= i < cols.len(),
        entries[i].values is Some,
        entries[i].delete,
    ensures
        translation_outcome(cols, entries) is Err,
        (entries[i].values->0.len() == dense_values(cols[i].values).len() && forall|k: int|
            0 <= k < i ==> (#[trigger] entry_fault(densified(cols[k]), entries[k])) is None)
            ==> translation_outcome(cols, entries) == Err::<TableView, Fault>(Fault::Conflict(cols[i].header)),
{
    let dense = densified_all(cols);
    assert(dense[i] == densified(cols[i]));
    if fault_from(dense, entries, 0) is None {
        lemma_no_fault_from(dense, entries, 0);
    }
    if forall|k: int| 0 <= k < i ==> (#[trigger] entry_fault(densified(cols[k]), entries[k])) is None {
        assert forall|k: int| 0 <= k < i implies (#[trigger] entry_fault(dense[k], entries[k])) is None by {
            assert(dense[k] == densified(cols[k]));
        }
        lemma_fault_skip(dense, entries, 0, i);
    }
}

} // verus!
