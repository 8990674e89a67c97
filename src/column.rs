//! The table's columns, their densified forms and the manifest's entries.
use vstd::prelude::*;

verus! {

/// One column of a table: its header and its values, one per row, in row order.
#[derive(Debug)]
pub struct CsvColumn {
    pub header: String,
    pub values: Vec<String>,
}

/// One column reduced to its distinct non-empty values, in ascending order.
#[derive(Debug)]
pub struct DenseCsvColumn {
    pub header: String,
    pub values: Vec<String>,
}

/// One entry of a translated manifest. `values` absent means the column
/// passes through unchanged; `delete` drops the column from the output.
#[derive(Debug)]
pub struct TranslatedDenseCsvColumn {
    pub header: String,
    pub values: Option<Vec<String>>,
    pub delete: bool,
}

/// A header and a sequence of values, as mathematical strings.
pub struct ColumnView {
    pub header: Seq<char>,
    pub values: Seq<Seq<char>>,
}

/// A manifest entry as mathematical strings.
pub struct EntryView {
    pub header: Seq<char>,
    pub values: Option<Seq<Seq<char>>>,
    pub delete: bool,
}

impl View for CsvColumn {
    type V = ColumnView;

    open spec fn view(&self) -> ColumnView {
        ColumnView { header: self.header@, values: self.values.deep_view() }
    }
}

impl View for DenseCsvColumn {
    type V = ColumnView;

    open spec fn view(&self) -> ColumnView {
        ColumnView { header: self.header@, values: self.values.deep_view() }
    }
}

impl View for TranslatedDenseCsvColumn {
    type V = EntryView;

    open spec fn view(&self) -> EntryView {
        EntryView {
            header: self.header@,
            values: match self.values {
                Some(v) => Some(v.deep_view()),
                None => None,
            },
            delete: self.delete,
        }
    }
}

/// The views of a sequence of columns.
pub open spec fn columns_view(cols: Seq<CsvColumn>) -> Seq<ColumnView> {
    cols.map_values(|c: CsvColumn| c@)
}

/// The views of a sequence of densified columns.
pub open spec fn dense_columns_view(cols: Seq<DenseCsvColumn>) -> Seq<ColumnView> {
    cols.map_values(|c: DenseCsvColumn| c@)
}

/// The views of a sequence of manifest entries.
pub open spec fn entries_view(entries: Seq<TranslatedDenseCsvColumn>) -> Seq<EntryView> {
    entries.map_values(|e: TranslatedDenseCsvColumn| e@)
}

/// Copies a list of strings, keeping what each holds.
pub fn copy_texts(v: &Vec<String>) -> (r: Vec<String>)
    ensures
        r.deep_view() == v.deep_view(),
{
    let mut out: Vec<String> = Vec::new();
    let mut i: usize = 0;
    while i < v.len()
        invariant
            i <= v@.len(),
            out@.len() == i,
            forall|k: int| 0 <= k < i ==> out@[k]@ == v@[k]@,
        decreases v@.len() - i,
    {
        out.push(v[i].clone());
        i = i + 1;
    }
    assert(out.deep_view() =~= v.deep_view());
    out
}

} // verus!
