//! One benchmark run's results: an insertion-ordered map from benchmark
//! name to an insertion-ordered map from parameter name to value.

use vstd::prelude::*;

verus! {

/// Mathematical model of one parameter entry: a name and its value.
#[verifier::ext_equal]
pub ghost struct ParamModel {
    pub name: Seq<u8>,
    pub value: Seq<u8>,
}

/// Mathematical model of one benchmark entry: a name and its parameters,
/// in insertion order.
#[verifier::ext_equal]
pub ghost struct BenchModel {
    pub name: Seq<u8>,
    pub params: Seq<ParamModel>,
}

/// The position of `name` in `names`, or -1 if it does not occur.
pub open spec fn find_name(names: Seq<Seq<u8>>, name: Seq<u8>) -> int
    decreases names.len(),
{
    if names.len() == 0 {
        -1
    } else if names[0] == name {
        0
    } else {
        let r = find_name(names.drop_first(), name);
        if r == -1 {
            -1
        } else {
            r + 1
        }
    }
}

/// `find_name` returns -1 exactly when the name is absent, and otherwise
/// the first position holding it.
pub proof fn lemma_find_name(names: Seq<Seq<u8>>, name: Seq<u8>)
    ensures
        ({
            let i = find_name(names, name);
            &&& -1 <= i < names.len()
            &&& i == -1 ==> forall|k: int| 0 <= k < names.len() ==> names[k] != name
            &&& i >= 0 ==> names[i] == name && forall|k: int| 0 <= k < i ==> names[k] != name
        }),
    decreases names.len(),
{
    if names.len() > 0 && names[0] != name {
        lemma_find_name(names.drop_first(), name);
        assert(forall|k: int|
            1 <= k < names.len() ==> names[k] == names.drop_first()[k - 1]);
    }
}

pub open spec fn param_names(ps: Seq<ParamModel>) -> Seq<Seq<u8>> {
    ps.map_values(|p: ParamModel| p.name)
}

pub open spec fn bench_names(c: Seq<BenchModel>) -> Seq<Seq<u8>> {
    c.map_values(|b: BenchModel| b.name)
}

/// Parameter names are pairwise distinct.
pub open spec fn params_wf(ps: Seq<ParamModel>) -> bool {
    forall|i: int, j: int| 0 <= i < j < ps.len() ==> ps[i].name != ps[j].name
}

/// Benchmark names are pairwise distinct, and each entry's parameters are.
pub open spec fn column_wf(c: Seq<BenchModel>) -> bool {
    &&& forall|i: int, j: int| 0 <= i < j < c.len() ==> c[i].name != c[j].name
    &&& forall|i: int| 0 <= i < c.len() ==> params_wf(#[trigger] c[i].params)
}

/// The value recorded under `name`, if any.
pub open spec fn params_get(ps: Seq<ParamModel>, name: Seq<u8>) -> Option<Seq<u8>> {
    let i = find_name(param_names(ps), name);
    if i >= 0 {
        Some(ps[i].value)
    } else {
        None
    }
}

/// The value recorded for benchmark `b`, parameter `p`, if any.
pub open spec fn column_get(c: Seq<BenchModel>, b: Seq<u8>, p: Seq<u8>) -> Option<Seq<u8>> {
    let i = find_name(bench_names(c), b);
    if i >= 0 {
        params_get(c[i].params, p)
    } else {
        None
    }
}

/// Record `value` under `name`: overwrite in place when the name is
/// present, append otherwise.
pub open spec fn params_set(ps: Seq<ParamModel>, name: Seq<u8>, value: Seq<u8>) -> Seq<
    ParamModel,
> {
    let i = find_name(param_names(ps), name);
    if i >= 0 {
        ps.update(i, ParamModel { name, value })
    } else {
        ps.push(ParamModel { name, value })
    }
}

/// Record `value` for benchmark `b`, parameter `p`: the benchmark entry is
/// updated in place when present, appended otherwise.
pub open spec fn column_set(c: Seq<BenchModel>, b: Seq<u8>, p: Seq<u8>, v: Seq<u8>) -> Seq<
    BenchModel,
> {
    let i = find_name(bench_names(c), b);
    if i >= 0 {
        c.update(i, BenchModel { name: b, params: params_set(c[i].params, p, v) })
    } else {
        c.push(BenchModel { name: b, params: seq![ParamModel { name: p, value: v }] })
    }
}

/// One parameter of a benchmark: its name and its recorded value.
#[derive(Debug)]
pub struct ParamEntry {
    pub name: Vec<u8>,
    pub value: Vec<u8>,
}

/// One benchmark of a run: its name and its parameters, in insertion order.
#[derive(Debug)]
pub struct BenchEntry {
    pub name: Vec<u8>,
    pub params: Vec<ParamEntry>,
}

/// A column of values from one benchmark run.
#[derive(Debug)]
pub struct Column {
    /// Ordered list of benchmark entries, each with its ordered parameters.
    pub benchmarks: Vec<BenchEntry>,
}

impl View for ParamEntry {
    type V = ParamModel;

    open spec fn view(&self) -> ParamModel {
        ParamModel { name: self.name@, value: self.value@ }
    }
}

impl View for BenchEntry {
    type V = BenchModel;

    open spec fn view(&self) -> BenchModel {
        BenchModel { name: self.name@, params: self.params@.map_values(|p: ParamEntry| p@) }
    }
}

impl View for Column {
    type V = Seq<BenchModel>;

    open spec fn view(&self) -> Seq<BenchModel> {
        self.benchmarks@.map_values(|b: BenchEntry| b@)
    }
}

impl Default for Column {
    /// An empty column.
    fn default() -> (r: Self)
        ensures
            r@ == Seq::<BenchModel>::empty(),
    {
        let c = Column { benchmarks: Vec::new() };
        proof {
            assert(c@ =~= Seq::<BenchModel>::empty());
        }
        c
    }
}

impl Column {
    /// Get a parameter value from an individual benchmark within this run.
    pub fn get(&self, benchmark: &Vec<u8>, parameter: &Vec<u8>) -> (r: Option<&Vec<u8>>)
        ensures
            match r {
                Some(v) => column_get(self@, benchmark@, parameter@) == Some(v@),
                None => column_get(self@, benchmark@, parameter@) is None,
            },
    {
        proof {
            lemma_find_name(bench_names(self@), benchmark@);
        }
        let mut i: usize = 0;
        while i < self.benchmarks.len()
            invariant
                i <= self.benchmarks.len(),
                forall|k: int| 0 <= k < i ==> bench_names(self@)[k] != benchmark@,
            decreases self.benchmarks.len() - i,
        {
            if crate::bytes_eq(self.benchmarks[i].name.as_slice(), benchmark.as_slice()) {
                let b = &self.benchmarks[i];
                proof {
                    assert(bench_names(self@)[i as int] == benchmark@);
                    lemma_find_name(bench_names(self@), benchmark@);
                    assert(find_name(bench_names(self@), benchmark@) == i);
                    lemma_find_name(param_names(b@.params), parameter@);
                }
                let mut j: usize = 0;
                while j < b.params.len()
                    invariant
                        j <= b.params.len(),
                        forall|k: int| 0 <= k < j ==> param_names(b@.params)[k] != parameter@,
                    decreases b.params.len() - j,
                {
                    if crate::bytes_eq(b.params[j].name.as_slice(), parameter.as_slice()) {
                        proof {
                            assert(param_names(b@.params)[j as int] == parameter@);
                            lemma_find_name(param_names(b@.params), parameter@);
                            assert(find_name(param_names(b@.params), parameter@) == j);
                            assert(self@[i as int] == b@);
                            assert(b@.params[j as int].value == b.params@[j as int].value@);
                        }
                        return Some(&b.params[j].value);
                    }
                    j = j + 1;
                }
                proof {
                    lemma_find_name(param_names(b@.params), parameter@);
                }
                return None;
            }
            i = i + 1;
        }
        None
    }

    /// Set a parameter value for an individual benchmark within this run.
    ///
    /// A value already recorded under the same names is overwritten in
    /// place; otherwise the entry is appended.
    pub fn set(&mut self, benchmark: &[u8], parameter: &[u8], value: &[u8])
        ensures
            final(self)@ == column_set(old(self)@, benchmark@, parameter@, value@),
    {
        let ghost c0 = self@;
        let ghost rhs = column_set(c0, benchmark@, parameter@, value@);
        let mut i: usize = 0;
        while i < self.benchmarks.len()
            invariant
                self@ == c0,
                i <= self.benchmarks.len(),
                forall|k: int| 0 <= k < i ==> bench_names(c0)[k] != benchmark@,
            decreases self.benchmarks.len() - i,
        {
            if crate::bytes_eq(self.benchmarks[i].name.as_slice(), benchmark) {
                proof {
                    assert(bench_names(c0)[i as int] == benchmark@);
                    lemma_find_name(bench_names(c0), benchmark@);
                    assert(find_name(bench_names(c0), benchmark@) == i);
                }
                let ghost bv0 = self.benchmarks@;
                let b = &mut self.benchmarks[i];
                let ghost e0 = *b;
                let ghost ps0 = e0@.params;
                proof {
                    assert(e0 == bv0[i as int]);
                    assert(ps0 == c0[i as int].params);
                    lemma_find_name(param_names(ps0), parameter@);
                }
                let mut j: usize = 0;
                while j < b.params.len()
                    invariant
                        *b == e0,
                        j <= b.params.len(),
                        forall|k: int| 0 <= k < j ==> param_names(ps0)[k] != parameter@,
                    decreases b.params.len() - j,
                {
                    if crate::bytes_eq(b.params[j].name.as_slice(), parameter) {
                        proof {
                            assert(param_names(ps0)[j as int] == parameter@);
                            lemma_find_name(param_names(ps0), parameter@);
                            assert(find_name(param_names(ps0), parameter@) == j);
                        }
                        let p = &mut b.params[j];
                        p.value = vstd::slice::slice_to_vec(value);
                        proof {
                            assert(b@.params =~~= params_set(ps0, parameter@, value@));
                            assert(b@.name == benchmark@);
                        }
                        proof {
                            assert(self.benchmarks@ =~~= bv0.update(
                                i as int,
                                self.benchmarks@[i as int],
                            ));
                            assert forall|k: int|
                                0 <= k < self@.len() implies self@[k] =~~= rhs[k] by {
                                if k != i as int {
                                    assert(self@[k] == bv0[k]@);
                                }
                            }
                            assert(self@ =~~= rhs);
                        }
                        return ;
                    }
                    j = j + 1;
                }
                proof {
                    lemma_find_name(param_names(ps0), parameter@);
                }
                b.params.push(
                    ParamEntry {
                        name: vstd::slice::slice_to_vec(parameter),
                        value: vstd::slice::slice_to_vec(value),
                    },
                );
                proof {
                    assert(b@.params =~~= params_set(ps0, parameter@, value@));
                    assert(b@.name == benchmark@);
                }
                proof {
                    assert(self.benchmarks@ =~~= bv0.update(i as int, self.benchmarks@[i as int]));
                    assert forall|k: int| 0 <= k < self@.len() implies self@[k] =~~= rhs[k] by {
                        if k != i as int {
                            assert(self@[k] == bv0[k]@);
                        }
                    }
                    assert(self@ =~~= rhs);
                }
                return ;
            }
            i = i + 1;
        }
        proof {
            lemma_find_name(bench_names(c0), benchmark@);
        }
        let mut ps: Vec<ParamEntry> = Vec::new();
        ps.push(
            ParamEntry {
                name: vstd::slice::slice_to_vec(parameter),
                value: vstd::slice::slice_to_vec(value),
            },
        );
        proof {
            assert(ps@.map_values(|p: ParamEntry| p@) =~~= seq![
                ParamModel { name: parameter@, value: value@ },
            ]);
        }
        self.benchmarks.push(
            BenchEntry { name: vstd::slice::slice_to_vec(benchmark), params: ps },
        );
        proof {
            assert(self@ =~~= rhs);
        }
    }

    /// Get the ordered list of benchmark entries.
    pub fn benchmarks(&self) -> (r: &Vec<BenchEntry>)
        ensures
            r@.map_values(|b: BenchEntry| b@) == self@,
    {
        &self.benchmarks
    }
}

} // verus!
