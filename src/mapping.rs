//! Per-column substitutions from original values to translated values.
use vstd::prelude::*;

verus! {

/// Pairs `keys[k]` with `vals[k]`; where a key repeats, its last pairing wins.
pub open spec fn zip_map(keys: Seq<Seq<char>>, vals: Seq<Seq<char>>) -> Map<Seq<char>, Seq<char>>
    decreases keys.len(),
{
    if keys.len() == 0 {
        Map::empty()
    } else {
        zip_map(keys.drop_last(), vals).insert(keys.last(), vals[keys.len() - 1])
    }
}

/// The keys of the pairing are exactly the listed keys.
pub proof fn lemma_zip_map_domain(keys: Seq<Seq<char>>, vals: Seq<Seq<char>>)
    ensures
        forall|v: Seq<char>| #[trigger] zip_map(keys, vals).contains_key(v) <==> keys.contains(v),
    decreases keys.len(),
{
    if keys.len() > 0 {
        let init = keys.drop_last();
        lemma_zip_map_domain(init, vals);
        assert forall|v: Seq<char>| #[trigger] zip_map(keys, vals).contains_key(v) <==> keys.contains(v) by {
            assert(zip_map(init, vals).contains_key(v) <==> init.contains(v));
            assert(zip_map(keys, vals) == zip_map(init, vals).insert(keys.last(), vals[keys.len() - 1]));
            if keys.contains(v) && v != keys.last() {
                let k = choose|k: int| 0 <= k < keys.len() && keys[k] == v;
                assert(init[k] == v);
            }
            if init.contains(v) {
                let k = choose|k: int| 0 <= k < init.len() && init[k] == v;
                assert(keys[k] == v);
            }
            if v == keys.last() {
                assert(keys[keys.len() - 1] == v);
            }
        }
    }
}

/// A key maps to the value beside its last occurrence.
pub proof fn lemma_zip_map_at(keys: Seq<Seq<char>>, vals: Seq<Seq<char>>, k: int)
    requires
        0 <= k < keys.len(),
        forall|m: int| k < m < keys.len() ==> keys[m] != keys[k],
    ensures
        zip_map(keys, vals)[keys[k]] == vals[k],
    decreases keys.len(),
{
    if k < keys.len() - 1 {
        let init = keys.drop_last();
        assert(init[k] == keys[k]);
        lemma_zip_map_at(init, vals, k);
    }
}

/// The substitution of one column: `from[k]` becomes `to[k]`.
#[derive(Debug)]
pub struct ColumnMapping {
    pub from: Vec<String>,
    pub to: Vec<String>,
}

impl View for ColumnMapping {
    type V = Map<Seq<char>, Seq<char>>;

    open spec fn view(&self) -> Map<Seq<char>, Seq<char>> {
        zip_map(self.from.deep_view(), self.to.deep_view())
    }
}

impl ColumnMapping {
    /// Every original value has a translation beside it.
    pub open spec fn well_formed(&self) -> bool {
        self.from@.len() <= self.to@.len()
    }

    /// The translation of `v`, if the mapping has one.
    pub fn translate_value(&self, v: &String) -> (r: Option<String>)
        requires
            self.well_formed(),
        ensures
            match r {
                Some(t) => self@.contains_key(v@) && t@ == self@[v@],
                None => !self@.contains_key(v@),
            },
    {
        let ghost keys = self.from.deep_view();
        let ghost vals = self.to.deep_view();
        let mut j: usize = self.from.len();
        while j > 0
            invariant
                j <= keys.len(),
                keys == self.from.deep_view(),
                vals == self.to.deep_view(),
                self.well_formed(),
                forall|m: int| j <= m < keys.len() ==> keys[m] != v@,
            decreases j,
        {
            if self.from[j - 1] == *v {
                proof {
                    lemma_zip_map_at(keys, vals, j - 1);
                    lemma_zip_map_domain(keys, vals);
                    assert(keys.contains(keys[j - 1]));
                }
                return Some(self.to[j - 1].clone());
            }
            j = j - 1;
        }
        proof {
            lemma_zip_map_domain(keys, vals);
        }
        None
    }
}

} // verus!
