//! Reduction of a column to its distinct non-empty values, in ascending order.
use vstd::prelude::*;
use crate::column::{CsvColumn, DenseCsvColumn, ColumnView};
use crate::text::{text_lt, text_less, strictly_ascending, lemma_text_lt_irreflexive,
    lemma_text_lt_transitive, lemma_text_lt_total};

verus! {

/// `d` with `x` put in its place, unless `d` holds it already.
pub open spec fn insert_sorted(d: Seq<Seq<char>>, x: Seq<char>) -> Seq<Seq<char>>
    decreases d.len(),
{
    if d.len() == 0 {
        seq![x]
    } else if text_lt(x, d[0]) {
        seq![x] + d
    } else if x == d[0] {
        d
    } else {
        seq![d[0]] + insert_sorted(d.drop_first(), x)
    }
}

/// The distinct non-empty values of `vals`, in ascending order.
pub open spec fn dense_values(vals: Seq<Seq<char>>) -> Seq<Seq<char>>
    decreases vals.len(),
{
    if vals.len() == 0 {
        Seq::empty()
    } else {
        let d = dense_values(vals.drop_last());
        if vals.last().len() == 0 {
            d
        } else {
            insert_sorted(d, vals.last())
        }
    }
}

/// `d` is strictly ascending and holds exactly the non-empty values of `vals`.
pub open spec fn is_dense_of(d: Seq<Seq<char>>, vals: Seq<Seq<char>>) -> bool {
    &&& strictly_ascending(d)
    &&& forall|x: Seq<char>| d.contains(x) <==> (vals.contains(x) && x.len() > 0)
}

/// The densified form of a column.
pub open spec fn densified(c: ColumnView) -> ColumnView {
    ColumnView { header: c.header, values: dense_values(c.values) }
}

proof fn lemma_insert_sorted(d: Seq<Seq<char>>, x: Seq<char>)
    requires
        strictly_ascending(d),
    ensures
        strictly_ascending(insert_sorted(d, x)),
        forall|y: Seq<char>| #[trigger] insert_sorted(d, x).contains(y) <==> (d.contains(y) || y == x),
    decreases d.len(),
{
    let r = insert_sorted(d, x);
    if d.len() == 0 {
        assert(r[0] == x);
    } else if text_lt(x, d[0]) {
        assert forall|i: int, j: int| 0 <= i < j < r.len() implies text_lt(r[i], r[j]) by {
            if i == 0 {
                if j > 1 {
                    assert(text_lt(d[0], d[j - 1]));
                    lemma_text_lt_transitive(x, d[0], d[j - 1]);
                }
            } else {
                assert(r[i] == d[i - 1] && r[j] == d[j - 1]);
            }
        }
        assert forall|y: Seq<char>| r.contains(y) <==> (d.contains(y) || y == x) by {
            if d.contains(y) {
                let k = choose|k: int| 0 <= k < d.len() && d[k] == y;
                assert(r[k + 1] == y);
            }
            if y == x {
                assert(r[0] == x);
            }
        }
    } else if x == d[0] {
    } else {
        let rest = d.drop_first();
        assert(strictly_ascending(rest)) by {
            assert forall|i: int, j: int| 0 <= i < j < rest.len() implies text_lt(rest[i], rest[j]) by {
                assert(rest[i] == d[i + 1] && rest[j] == d[j + 1]);
            }
        }
        lemma_insert_sorted(rest, x);
        let t = insert_sorted(rest, x);
        lemma_text_lt_total(x, d[0]);
        assert forall|k: int| 0 <= k < t.len() implies text_lt(d[0], #[trigger] t[k]) by {
            assert(t.contains(t[k]));
            if t[k] != x {
                assert(rest.contains(t[k]));
                let m = choose|m: int| 0 <= m < rest.len() && rest[m] == t[k];
                assert(d[m + 1] == t[k]);
                assert(text_lt(d[0], d[m + 1]));
            }
        }
        assert forall|i: int, j: int| 0 <= i < j < r.len() implies text_lt(r[i], r[j]) by {
            if i == 0 {
                assert(r[j] == t[j - 1]);
            } else {
                assert(r[i] == t[i - 1] && r[j] == t[j - 1]);
            }
        }
        assert forall|y: Seq<char>| r.contains(y) <==> (d.contains(y) || y == x) by {
            if r.contains(y) {
                let k = choose|k: int| 0 <= k < r.len() && r[k] == y;
                if k > 0 {
                    assert(t[k - 1] == y);
                    assert(t.contains(y));
                    if y != x {
                        assert(rest.contains(y));
                        let m = choose|m: int| 0 <= m < rest.len() && rest[m] == y;
                        assert(d[m + 1] == y);
                    }
                }
            }
            if d.contains(y) {
                let k = choose|k: int| 0 <= k < d.len() && d[k] == y;
                if k == 0 {
                    assert(r[0] == y);
                } else {
                    assert(rest[k - 1] == y);
                    assert(rest.contains(y));
                    assert(t.contains(y));
                    let m = choose|m: int| 0 <= m < t.len() && t[m] == y;
                    assert(r[m + 1] == y);
                }
            }
            if y == x {
                assert(t.contains(x));
                let m = choose|m: int| 0 <= m < t.len() && t[m] == x;
                assert(r[m + 1] == x);
            }
        }
    }
}

/// The densified values are strictly ascending and hold exactly the non-empty
/// values of the column: empties are dropped and duplicates collapsed.
pub proof fn lemma_dense_values(vals: Seq<Seq<char>>)
    ensures
        is_dense_of(dense_values(vals), vals),
    decreases vals.len(),
{
    if vals.len() > 0 {
        let init = vals.drop_last();
        lemma_dense_values(init);
        let d = dense_values(init);
        if vals.last().len() != 0 {
            lemma_insert_sorted(d, vals.last());
        }
        assert forall|x: Seq<char>| vals.contains(x) <==> (init.contains(x) || x == vals.last()) by {
            if vals.contains(x) {
                let k = choose|k: int| 0 <= k < vals.len() && vals[k] == x;
                if k < vals.len() - 1 {
                    assert(init[k] == x);
                }
            }
            if init.contains(x) {
                let k = choose|k: int| 0 <= k < init.len() && init[k] == x;
                assert(vals[k] == x);
            }
            if x == vals.last() {
                assert(vals[vals.len() - 1] == x);
            }
        }
    }
}

proof fn lemma_insert_after_prefix(d: Seq<Seq<char>>, x: Seq<char>, p: int)
    requires
        0 <= p <= d.len(),
        forall|k: int| 0 <= k < p ==> text_lt(#[trigger] d[k], x),
    ensures
        insert_sorted(d, x) == d.take(p) + insert_sorted(d.skip(p), x),
    decreases p,
{
    if p == 0 {
        assert(d.take(0) + d.skip(0) =~= d);
        assert(d.skip(0) =~= d);
    } else {
        lemma_text_lt_irreflexive(x);
        assert(text_lt(d[0], x));
        if text_lt(x, d[0]) {
            lemma_text_lt_transitive(x, d[0], x);
        }
        let rest = d.drop_first();
        assert forall|k: int| 0 <= k < p - 1 implies text_lt(#[trigger] rest[k], x) by {
            assert(rest[k] == d[k + 1]);
        }
        lemma_insert_after_prefix(rest, x, p - 1);
        assert(rest.skip(p - 1) =~= d.skip(p));
        assert(seq![d[0]] + rest.take(p - 1) =~= d.take(p));
        assert(seq![d[0]] + (rest.take(p - 1) + insert_sorted(d.skip(p), x))
            =~= d.take(p) + insert_sorted(d.skip(p), x));
    }
}

/// Puts `x` in its place in the ascending list `out`, unless it is there already.
fn insert_value(out: &mut Vec<String>, x: String)
    requires
        strictly_ascending(old(out).deep_view()),
    ensures
        final(out).deep_view() == insert_sorted(old(out).deep_view(), x@),
{
    let ghost d = out.deep_view();
    let mut p: usize = 0;
    while p < out.len() && text_less(out[p].as_str(), x.as_str())
        invariant
            out.deep_view() == d,
            p <= d.len(),
            forall|k: int| 0 <= k < p ==> text_lt(#[trigger] d[k], x@),
        decreases d.len() - p,
    {
        p = p + 1;
    }
    proof {
        lemma_insert_after_prefix(d, x@, p as int);
        if p < d.len() {
            assert(d.skip(p as int)[0] == d[p as int]);
            if d[p as int] != x@ {
                lemma_text_lt_total(d[p as int], x@);
            }
        }
    }
    if p < out.len() && out[p] == x {
        assert(d.skip(p as int) =~= seq![d[p as int]] + d.skip(p as int).drop_first());
        assert(d.take(p as int) + d.skip(p as int) =~= d);
    } else {
        let ghost xv = x@;
        out.insert(p, x);
        assert(out.deep_view() =~= d.take(p as int) + insert_sorted(d.skip(p as int), xv));
    }
}

/// The distinct non-empty values of `values`, in ascending order.
pub fn densify_values(values: &Vec<String>) -> (r: Vec<String>)
    ensures
        r.deep_view() == dense_values(values.deep_view()),
        is_dense_of(r.deep_view(), values.deep_view()),
{
    let ghost vals = values.deep_view();
    let mut out: Vec<String> = Vec::new();
    let mut i: usize = 0;
    while i < values.len()
        invariant
            i <= vals.len(),
            vals == values.deep_view(),
            out.deep_view() == dense_values(vals.take(i as int)),
        decreases vals.len() - i,
    {
        proof {
            lemma_dense_values(vals.take(i as int));
        }
        assert(vals.take(i + 1).drop_last() =~= vals.take(i as int));
        if !values[i].as_str().is_empty() {
            insert_value(&mut out, values[i].clone());
        }
        i = i + 1;
    }
    assert(vals.take(vals.len() as int) =~= vals);
    proof {
        lemma_dense_values(vals);
    }
    out
}

/// Densifies each column, keeping the columns' order and headers.
pub fn densify_csv_columns(columns: &[CsvColumn]) -> (r: Vec<DenseCsvColumn>)
    ensures
        r@.len() == columns@.len(),
        forall|k: int| 0 <= k < columns@.len() ==> #[trigger] r@[k]@ == densified(columns@[k]@),
{
    let mut out: Vec<DenseCsvColumn> = Vec::new();
    let mut i: usize = 0;
    while i < columns.len()
        invariant
            i <= columns@.len(),
            out@.len() == i,
            forall|k: int| 0 <= k < i ==> #[trigger] out@[k]@ == densified(columns@[k]@),
        decreases columns@.len() - i,
    {
        let column = &columns[i];
        let values = densify_values(&column.values);
        out.push(DenseCsvColumn { header: column.header.clone(), values });
        i = i + 1;
    }
    out
}

} // verus!
