//! The table: named columns, one per input source, aligned into a CSV grid.

use vstd::prelude::*;

use crate::column::{column_wf, find_name, BenchModel, Column, ParamModel};

verus! {

/// Mathematical model of a named column.
#[verifier::ext_equal]
pub ghost struct ColModel {
    pub name: Seq<u8>,
    pub benches: Seq<BenchModel>,
}

/// A column together with its name.
#[derive(Debug)]
pub struct NamedColumn {
    pub name: Vec<u8>,
    pub column: Column,
}

impl View for NamedColumn {
    type V = ColModel;

    open spec fn view(&self) -> ColModel {
        ColModel { name: self.name@, benches: self.column@ }
    }
}

/// A table of columns that can be written to CSV.
///
/// Each column represents a benchmark run.
#[derive(Debug)]
pub struct Table {
    /// Ordered list of named columns.
    pub columns: Vec<NamedColumn>,
}

impl View for Table {
    type V = Seq<ColModel>;

    open spec fn view(&self) -> Seq<ColModel> {
        self.columns@.map_values(|c: NamedColumn| c@)
    }
}

pub open spec fn table_names(t: Seq<ColModel>) -> Seq<Seq<u8>> {
    t.map_values(|c: ColModel| c.name)
}

/// Column names are pairwise distinct and every column is well formed.
pub open spec fn table_wf(t: Seq<ColModel>) -> bool {
    &&& forall|i: int, j: int| 0 <= i < j < t.len() ==> t[i].name != t[j].name
    &&& forall|i: int| 0 <= i < t.len() ==> column_wf(#[trigger] t[i].benches)
}

/// The first header cell, the ASCII bytes of "benchmark".
pub open spec fn benchmark_label() -> Seq<u8> {
    seq![98u8, 101u8, 110u8, 99u8, 104u8, 109u8, 97u8, 114u8, 107u8]
}

/// The second header cell, the ASCII bytes of "parameter".
pub open spec fn parameter_label() -> Seq<u8> {
    seq![112u8, 97u8, 114u8, 97u8, 109u8, 101u8, 116u8, 101u8, 114u8]
}

fn benchmark_label_vec() -> (r: Vec<u8>)
    ensures
        r@ == benchmark_label(),
{
    let mut v: Vec<u8> = Vec::new();
    v.push(98u8);
    v.push(101u8);
    v.push(110u8);
    v.push(99u8);
    v.push(104u8);
    v.push(109u8);
    v.push(97u8);
    v.push(114u8);
    v.push(107u8);
    proof {
        assert(v@ =~= benchmark_label());
    }
    v
}

fn parameter_label_vec() -> (r: Vec<u8>)
    ensures
        r@ == parameter_label(),
{
    let mut v: Vec<u8> = Vec::new();
    v.push(112u8);
    v.push(97u8);
    v.push(114u8);
    v.push(97u8);
    v.push(109u8);
    v.push(101u8);
    v.push(116u8);
    v.push(101u8);
    v.push(114u8);
    proof {
        assert(v@ =~= parameter_label());
    }
    v
}

impl Default for Table {
    /// An empty table.
    fn default() -> (r: Self)
        ensures
            r@ == Seq::<ColModel>::empty(),
    {
        let t = Table { columns: Vec::new() };
        proof {
            assert(t@ =~= Seq::<ColModel>::empty());
        }
        t
    }
}

impl Table {
    /// Get a column by name.
    ///
    /// This will create an empty column if one of that name does not
    /// already exist; an existing column is returned as it stands, so
    /// further entries accumulate into it.
    pub fn column(&mut self, name: &[u8]) -> (ret: &mut Column)
        ensures
            ({
                let i = find_name(table_names(old(self)@), name@);
                if i >= 0 {
                    &&& (*ret)@ == old(self)@[i].benches
                    &&& final(self)@ == old(self)@.update(
                        i,
                        ColModel { name: old(self)@[i].name, benches: final(ret)@ },
                    )
                } else {
                    &&& (*ret)@ == Seq::<BenchModel>::empty()
                    &&& final(self)@ == old(self)@.push(
                        ColModel { name: name@, benches: final(ret)@ },
                    )
                }
            }),
    {
        let ghost t0 = self@;
        let mut i: usize = 0;
        while i < self.columns.len()
            invariant
                self@ == t0,
                i <= self.columns.len(),
                forall|k: int| 0 <= k < i ==> table_names(t0)[k] != name@,
            decreases self.columns.len() - i,
        {
            if crate::bytes_eq(self.columns[i].name.as_slice(), name) {
                proof {
                    assert(table_names(t0)[i as int] == name@);
                    crate::column::lemma_find_name(table_names(t0), name@);
                    assert(find_name(table_names(t0), name@) == i);
                }
                let entry = &mut self.columns[i];
                return &mut entry.column;
            }
            i = i + 1;
        }
        proof {
            crate::column::lemma_find_name(table_names(t0), name@);
        }
        self.columns.push(
            NamedColumn {
                name: vstd::slice::slice_to_vec(name),
                column: Column { benchmarks: Vec::new() },
            },
        );
        let n = self.columns.len() - 1;
        let entry = &mut self.columns[n];
        &mut entry.column
    }

    /// Get a vector of byte strings representing headers in the table.
    ///
    /// The first two are always "benchmark" and "parameter"; the following
    /// entries are the names of the columns, in insertion order.
    pub fn headers(&self) -> (r: Vec<Vec<u8>>)
        ensures
            r@.map_values(|h: Vec<u8>| h@) == seq![benchmark_label(), parameter_label()]
                + table_names(self@),
    {
        let mut r: Vec<Vec<u8>> = Vec::new();
        r.push(benchmark_label_vec());
        r.push(parameter_label_vec());
        let mut i: usize = 0;
        while i < self.columns.len()
            invariant
                r@.len() == 2 + i,
                i <= self.columns.len(),
                r@[0]@ == benchmark_label(),
                r@[1]@ == parameter_label(),
                forall|k: int| 0 <= k < i ==> r@[2 + k]@ == table_names(self@)[k],
            decreases self.columns.len() - i,
        {
            r.push(vstd::slice::slice_to_vec(self.columns[i].name.as_slice()));
            i = i + 1;
        }
        proof {
            assert(r@.map_values(|h: Vec<u8>| h@) =~= seq![benchmark_label(), parameter_label()]
                + table_names(self@));
        }
        r
    }
}

/// The (benchmark, parameter) pairs of one benchmark entry, in order.
pub open spec fn bench_pairs(b: BenchModel) -> Seq<(Seq<u8>, Seq<u8>)> {
    b.params.map_values(|p: ParamModel| (b.name, p.name))
}

/// The pairs of the first `n` parameters of one benchmark entry.
pub open spec fn bench_pairs_prefix(b: BenchModel, n: int) -> Seq<(Seq<u8>, Seq<u8>)> {
    b.params.take(n).map_values(|p: ParamModel| (b.name, p.name))
}

/// All (benchmark, parameter) pairs of a column, in its own order.
pub open spec fn col_pairs(c: Seq<BenchModel>) -> Seq<(Seq<u8>, Seq<u8>)>
    decreases c.len(),
{
    if c.len() == 0 {
        Seq::empty()
    } else {
        col_pairs(c.drop_last()) + bench_pairs(c.last())
    }
}

/// All pairs of all columns, columns in insertion order.
pub open spec fn all_pairs(t: Seq<ColModel>) -> Seq<(Seq<u8>, Seq<u8>)>
    decreases t.len(),
{
    if t.len() == 0 {
        Seq::empty()
    } else {
        all_pairs(t.drop_last()) + col_pairs(t.last().benches)
    }
}

/// Keep each pair at its first occurrence and drop the later ones.
pub open spec fn dedup_first(s: Seq<(Seq<u8>, Seq<u8>)>) -> Seq<(Seq<u8>, Seq<u8>)>
    decreases s.len(),
{
    if s.len() == 0 {
        Seq::empty()
    } else {
        let d = dedup_first(s.drop_last());
        if s.drop_last().contains(s.last()) {
            d
        } else {
            d.push(s.last())
        }
    }
}

/// The deterministic ordered union of the pairs of all columns: each pair
/// stands at the position of its first occurrence over the columns in
/// insertion order, each column scanned in its own insertion order.
pub open spec fn union_pairs(t: Seq<ColModel>) -> Seq<(Seq<u8>, Seq<u8>)> {
    dedup_first(all_pairs(t))
}

/// The views of a vector of byte-string pairs.
pub open spec fn pair_views(ps: Seq<(Vec<u8>, Vec<u8>)>) -> Seq<(Seq<u8>, Seq<u8>)> {
    ps.map_values(|p: (Vec<u8>, Vec<u8>)| (p.0@, p.1@))
}

/// Deduplication keeps exactly the pairs that occur.
pub proof fn lemma_dedup_first_contains(s: Seq<(Seq<u8>, Seq<u8>)>, x: (Seq<u8>, Seq<u8>))
    ensures
        dedup_first(s).contains(x) <==> s.contains(x),
    decreases s.len(),
{
    if s.len() > 0 {
        lemma_dedup_first_contains(s.drop_last(), x);
        let d = dedup_first(s.drop_last());
        if s.contains(x) {
            let w = choose|w: int| 0 <= w < s.len() && s[w] == x;
            if w < s.len() - 1 {
                assert(s.drop_last()[w] == x);
                assert(s.drop_last().contains(x));
                assert(d.contains(x));
                if !s.drop_last().contains(s.last()) {
                    let u = choose|u: int| 0 <= u < d.len() && d[u] == x;
                    assert(d.push(s.last())[u] == x);
                }
                assert(dedup_first(s).contains(x));
            } else {
                assert(x == s.last());
                if s.drop_last().contains(s.last()) {
                    assert(d.contains(x));
                } else {
                    assert(d.push(s.last())[d.len() as int] == x);
                }
                assert(dedup_first(s).contains(x));
            }
        }
        if dedup_first(s).contains(x) {
            if s.drop_last().contains(s.last()) {
                assert(d.contains(x));
                assert(s.drop_last().contains(x));
                let w = choose|w: int| 0 <= w < s.drop_last().len() && s.drop_last()[w] == x;
                assert(s[w] == x);
                assert(s.contains(x));
            } else {
                let w = choose|w: int| 0 <= w < d.push(s.last()).len() && d.push(s.last())[w]
                    == x;
                if w < d.len() {
                    assert(d[w] == x);
                    assert(d.contains(x));
                    assert(s.drop_last().contains(x));
                    let w2 = choose|w2: int|
                        0 <= w2 < s.drop_last().len() && s.drop_last()[w2] == x;
                    assert(s[w2] == x);
                    assert(s.contains(x));
                } else {
                    assert(x == s.last());
                    assert(s[s.len() - 1] == x);
                    assert(s.contains(x));
                }
            }
        }
    }
}

/// Whether `v` holds the pair (`b`, `p`).
fn contains_pair(v: &Vec<(Vec<u8>, Vec<u8>)>, b: &Vec<u8>, p: &Vec<u8>) -> (r: bool)
    ensures
        r == pair_views(v@).contains((b@, p@)),
{
    let mut i: usize = 0;
    while i < v.len()
        invariant
            i <= v.len(),
            forall|k: int| 0 <= k < i ==> pair_views(v@)[k] != (b@, p@),
        decreases v.len() - i,
    {
        if crate::bytes_eq(v[i].0.as_slice(), b.as_slice()) && crate::bytes_eq(
            v[i].1.as_slice(),
            p.as_slice(),
        ) {
            proof {
                assert(pair_views(v@)[i as int] == (b@, p@));
            }
            return true;
        }
        i = i + 1;
    }
    false
}

impl Table {
    /// Return all unique pairs of individual benchmark names (e.g. function
    /// names) and parameter names (e.g. "Instructions"), each at the
    /// position of its first occurrence.
    pub fn benchmarks_and_parameters(&self) -> (r: Vec<(Vec<u8>, Vec<u8>)>)
        ensures
            pair_views(r@) == union_pairs(self@),
    {
        // First flatten every column's pairs in order, then keep each
        // pair's first occurrence.
        let mut flat: Vec<(Vec<u8>, Vec<u8>)> = Vec::new();
        let mut ci: usize = 0;
        proof {
            assert(pair_views(flat@) =~= all_pairs(self@.take(0)));
        }
        while ci < self.columns.len()
            invariant
                ci <= self.columns.len(),
                pair_views(flat@) == all_pairs(self@.take(ci as int)),
            decreases self.columns.len() - ci,
        {
            let col = &self.columns[ci];
            let ghost c = col.column@;
            let mut bi: usize = 0;
            proof {
                assert(col_pairs(c.take(0)) =~= Seq::<(Seq<u8>, Seq<u8>)>::empty());
            }
            while bi < col.column.benchmarks.len()
                invariant
                    bi <= col.column.benchmarks.len(),
                    pair_views(flat@) == all_pairs(self@.take(ci as int)) + col_pairs(
                        c.take(bi as int),
                    ),
                decreases col.column.benchmarks.len() - bi,
            {
                let b = &col.column.benchmarks[bi];
                let mut pi: usize = 0;
                proof {
                    assert(bench_pairs_prefix(b@, 0) =~= Seq::<(Seq<u8>, Seq<u8>)>::empty());
                }
                while pi < b.params.len()
                    invariant
                        pi <= b.params.len(),
                        pair_views(flat@) == all_pairs(self@.take(ci as int)) + col_pairs(
                            c.take(bi as int),
                        ) + bench_pairs_prefix(b@, pi as int),
                    decreases b.params.len() - pi,
                {
                    let ghost f0 = flat@;
                    flat.push(
                        (
                            vstd::slice::slice_to_vec(b.name.as_slice()),
                            vstd::slice::slice_to_vec(b.params[pi].name.as_slice()),
                        ),
                    );
                    proof {
                        let x = (b@.name, b@.params[pi as int].name);
                        assert(pair_views(flat@) =~= pair_views(f0).push(x));
                        assert(bench_pairs_prefix(b@, pi + 1) =~= bench_pairs_prefix(b@, pi as int)
                            .push(x));
                        assert(pair_views(flat@) =~= all_pairs(self@.take(ci as int)) + col_pairs(
                            c.take(bi as int),
                        ) + bench_pairs_prefix(b@, pi + 1));
                    }
                    pi = pi + 1;
                }
                proof {
                    assert(bench_pairs_prefix(b@, b@.params.len() as int) =~= bench_pairs(b@));
                    assert(c.take(bi + 1).drop_last() =~= c.take(bi as int));
                    assert(c.take(bi + 1).last() == b@);
                    assert(col_pairs(c.take(bi + 1)) == col_pairs(c.take(bi as int)) + bench_pairs(
                        b@,
                    ));
                    assert(pair_views(flat@) =~= all_pairs(self@.take(ci as int)) + col_pairs(
                        c.take(bi + 1),
                    ));
                }
                bi = bi + 1;
            }
            proof {
                assert(c.take(col.column.benchmarks.len() as int) =~= c);
                assert(self@.take(ci + 1).drop_last() =~= self@.take(ci as int));
                assert(self@.take(ci + 1).last() == self@[ci as int]);
                assert(all_pairs(self@.take(ci + 1)) == all_pairs(self@.take(ci as int))
                    + col_pairs(c));
                assert(pair_views(flat@) =~= all_pairs(self@.take(ci + 1)));
            }
            ci = ci + 1;
        }
        proof {
            assert(self@.take(self@.len() as int) =~= self@);
        }
        // Keep each pair's first occurrence.
        let mut r: Vec<(Vec<u8>, Vec<u8>)> = Vec::new();
        let mut k: usize = 0;
        proof {
            assert(pair_views(r@) =~= dedup_first(pair_views(flat@).take(0)));
        }
        while k < flat.len()
            invariant
                k <= flat.len(),
                pair_views(r@) == dedup_first(pair_views(flat@).take(k as int)),
            decreases flat.len() - k,
        {
            let seen = contains_pair(&r, &flat[k].0, &flat[k].1);
            proof {
                let fv = pair_views(flat@);
                lemma_dedup_first_contains(fv.take(k as int), fv[k as int]);
                assert(fv.take(k + 1).drop_last() =~= fv.take(k as int));
                assert(fv.take(k + 1).last() == fv[k as int]);
            }
            if !seen {
                let name = vstd::slice::slice_to_vec(flat[k].0.as_slice());
                let param = vstd::slice::slice_to_vec(flat[k].1.as_slice());
                r.push((name, param));
                proof {
                    assert(pair_views(r@) =~= dedup_first(pair_views(flat@).take(k + 1)));
                }
            } else {
                proof {
                    assert(pair_views(r@) =~= dedup_first(pair_views(flat@).take(k + 1)));
                }
            }
            k = k + 1;
        }
        proof {
            assert(pair_views(flat@).take(flat@.len() as int) =~= pair_views(flat@));
        }
        r
    }
}

} // verus!

