//! The laws of the library: what parsing, the union and the serialization
//! guarantee of each other, proved once and for all inputs.

use vstd::prelude::*;

use crate::column::{
    bench_names, column_get, column_set, column_wf, find_name, lemma_find_name, param_names,
    params_set, params_wf, BenchModel, ParamModel,
};
use crate::csv_out::{cell, data_row, table_rows};
use crate::report::{
    begins_line, classify_line, find_line_term, has_value, is_line_term, is_space,
    lemma_find_line_term, lemma_find_nonspace, lemma_find_space, param_value, parse_rec,
    parse_spec, value_end, value_start, LineStep, ParseError,
};
use crate::table::{
    all_pairs, bench_pairs, col_pairs, dedup_first, table_names, table_wf, union_pairs, ColModel,
};

verus! {

/// Setting a parameter keeps a parameter list well formed.
pub proof fn lemma_params_set_wf(ps: Seq<ParamModel>, name: Seq<u8>, value: Seq<u8>)
    requires
        params_wf(ps),
    ensures
        params_wf(params_set(ps, name, value)),
{
    lemma_find_name(param_names(ps), name);
    let i = find_name(param_names(ps), name);
    let r = params_set(ps, name, value);
    if i >= 0 {
        assert(param_names(ps)[i] == name);
        assert(forall|k: int| 0 <= k < r.len() && k != i ==> r[k] == ps[k]);
        assert(r[i].name == ps[i].name);
    } else {
        assert forall|k: int| 0 <= k < ps.len() implies ps[k].name != name by {
            assert(param_names(ps)[k] == ps[k].name);
        }
    }
}

/// Recording a value keeps a column well formed.
pub proof fn lemma_column_set_wf(c: Seq<BenchModel>, b: Seq<u8>, p: Seq<u8>, v: Seq<u8>)
    requires
        column_wf(c),
    ensures
        column_wf(column_set(c, b, p, v)),
{
    lemma_find_name(bench_names(c), b);
    let i = find_name(bench_names(c), b);
    let r = column_set(c, b, p, v);
    if i >= 0 {
        assert(bench_names(c)[i] == b);
        lemma_params_set_wf(c[i].params, p, v);
        assert(forall|k: int| 0 <= k < r.len() && k != i ==> r[k] == c[k]);
        assert(r[i].name == c[i].name);
    } else {
        assert forall|k: int| 0 <= k < c.len() implies c[k].name != b by {
            assert(bench_names(c)[k] == c[k].name);
        }
        assert(params_wf(r[c.len() as int].params));
    }
}

/// Parsing from any position keeps a column well formed.
proof fn lemma_parse_rec_wf(s: Seq<u8>, i: int, bench: Seq<u8>, col: Seq<BenchModel>)
    requires
        0 <= i <= s.len(),
        column_wf(col),
    ensures
        parse_rec(s, i, bench, col) matches Ok(c2) ==> column_wf(c2),
    decreases s.len() - i,
{
    lemma_find_line_term(s, i);
    let j = find_line_term(s, i);
    let line = s.subrange(i, j);
    match classify_line(line) {
        LineStep::Fail(_) => {},
        step => {
            let bench2 = if step is Bench {
                step->Bench_0
            } else {
                bench
            };
            let col2 = if step is Record {
                column_set(col, bench, step->Record_0, step->Record_1)
            } else {
                col
            };
            if step is Record {
                lemma_column_set_wf(col, bench, step->Record_0, step->Record_1);
            }
            if j < s.len() {
                lemma_parse_rec_wf(s, j + 1, bench2, col2);
            }
        },
    }
}

/// A report that parses leaves any well-formed column well formed.
pub proof fn lemma_parse_wf(s: Seq<u8>, col: Seq<BenchModel>)
    requires
        column_wf(col),
    ensures
        parse_spec(s, col) matches Ok(c2) ==> column_wf(c2),
{
    lemma_parse_rec_wf(s, 0, Seq::empty(), col);
}

proof fn lemma_parse_rec_no_indent(s: Seq<u8>, i: int, bench: Seq<u8>, col: Seq<BenchModel>)
    requires
        0 <= i <= s.len(),
        begins_line(s, i),
        forall|k: int| 0 <= k < s.len() && begins_line(s, k) ==> !is_space(s[k]),
    ensures
        parse_rec(s, i, bench, col) == Ok::<Seq<BenchModel>, ParseError>(col),
    decreases s.len() - i,
{
    lemma_find_line_term(s, i);
    let j = find_line_term(s, i);
    let line = s.subrange(i, j);
    if j > i {
        assert(line[0] == s[i]);
        assert(!is_space(s[i]));
        assert(classify_line(line) == LineStep::Bench(line));
    } else {
        assert(classify_line(line) == LineStep::Skip);
    }
    if j < s.len() {
        assert(is_line_term(s[j]));
        assert(begins_line(s, j + 1));
        let bench2 = if j > i {
            line
        } else {
            bench
        };
        lemma_parse_rec_no_indent(s, j + 1, bench2, col);
    }
}

/// A report with no indented lines records nothing: every line is empty or
/// names a benchmark, so parsing succeeds and produces zero rows, leaving
/// any column exactly as it was.
pub proof fn lemma_no_indented_lines_no_rows(s: Seq<u8>, col: Seq<BenchModel>)
    requires
        forall|k: int| 0 <= k < s.len() && begins_line(s, k) ==> !is_space(s[k]),
    ensures
        parse_spec(s, col) == Ok::<Seq<BenchModel>, ParseError>(col),
{
    lemma_parse_rec_no_indent(s, 0, Seq::empty(), col);
}

/// Of a parameter line's text after its first colon, the extracted value
/// is the first maximal run of non-space bytes: everything before it is a
/// space, it holds no space itself, and it ends at a space or at the end,
/// so surrounding spaces and any trailing annotation are stripped.
pub proof fn lemma_value_is_first_run(rest: Seq<u8>)
    requires
        has_value(rest),
    ensures
        ({
            let a = value_start(rest);
            let b = value_end(rest);
            &&& 0 <= a < b <= rest.len()
            &&& param_value(rest) == rest.subrange(a, b)
            &&& forall|k: int| 0 <= k < a ==> is_space(rest[k])
            &&& forall|k: int| a <= k < b ==> !is_space(rest[k])
            &&& b < rest.len() ==> is_space(rest[b])
        }),
{
    lemma_find_nonspace(rest, 0);
    let a = value_start(rest);
    lemma_find_space(rest, a + 1);
}

/// Replacing one column's contents with well-formed ones keeps the table
/// well formed: this is what filling an existing column does to the table.
pub proof fn lemma_table_update_wf(t: Seq<ColModel>, i: int, benches: Seq<BenchModel>)
    requires
        table_wf(t),
        0 <= i < t.len(),
        column_wf(benches),
    ensures
        table_wf(t.update(i, ColModel { name: t[i].name, benches })),
{
    let t2 = t.update(i, ColModel { name: t[i].name, benches });
    assert(forall|k: int| 0 <= k < t2.len() ==> t2[k].name == t[k].name);
}

/// Appending a column under a fresh name, with well-formed contents, keeps
/// the table well formed: this is what creating a new column does.
pub proof fn lemma_table_push_wf(t: Seq<ColModel>, name: Seq<u8>, benches: Seq<BenchModel>)
    requires
        table_wf(t),
        column_wf(benches),
        find_name(table_names(t), name) == -1,
    ensures
        table_wf(t.push(ColModel { name, benches })),
{
    lemma_find_name(table_names(t), name);
    let t2 = t.push(ColModel { name, benches });
    assert forall|k: int| 0 <= k < t.len() implies t2[k].name != name by {
        assert(table_names(t)[k] == t[k].name);
    }
}

/// `find_name` of a name known to stand first at position `i`.
proof fn lemma_find_name_is(names: Seq<Seq<u8>>, x: Seq<u8>, i: int)
    requires
        0 <= i < names.len(),
        names[i] == x,
        forall|k: int| 0 <= k < i ==> names[k] != x,
    ensures
        find_name(names, x) == i,
{
    lemma_find_name(names, x);
}

/// The (benchmark, parameter, value) triples of one benchmark entry.
pub open spec fn bench_triples(b: BenchModel) -> Seq<(Seq<u8>, Seq<u8>, Seq<u8>)> {
    b.params.map_values(|p: ParamModel| (b.name, p.name, p.value))
}

/// All triples of a column, in its own order.
pub open spec fn col_triples(c: Seq<BenchModel>) -> Seq<(Seq<u8>, Seq<u8>, Seq<u8>)>
    decreases c.len(),
{
    if c.len() == 0 {
        Seq::empty()
    } else {
        col_triples(c.drop_last()) + bench_triples(c.last())
    }
}

/// In a well-formed column the pair list and the triple list run in
/// parallel, hold no duplicate pair, and looking any triple's pair up in
/// the column gives back exactly that triple's value.
pub proof fn lemma_col_triples(c: Seq<BenchModel>)
    requires
        column_wf(c),
    ensures
        col_pairs(c).len() == col_triples(c).len(),
        forall|k: int| #![trigger col_pairs(c)[k]]
            0 <= k < col_pairs(c).len() ==> col_pairs(c)[k] == (
                col_triples(c)[k].0,
                col_triples(c)[k].1,
            ),
        forall|k: int| #![trigger col_triples(c)[k]]
            0 <= k < col_triples(c).len() ==> column_get(c, col_triples(c)[k].0,
            col_triples(c)[k].1) == Some(col_triples(c)[k].2),
        col_pairs(c).no_duplicates(),
        forall|k: int| #![trigger col_pairs(c)[k]]
            0 <= k < col_pairs(c).len() ==> bench_names(c).contains(col_pairs(c)[k].0),
    decreases c.len(),
{
    if c.len() > 0 {
        let n = c.len() - 1;
        let cp = c.drop_last();
        let b = c.last();
        assert(column_wf(cp)) by {
            assert(forall|i: int| 0 <= i < cp.len() ==> cp[i] == c[i]);
        }
        lemma_col_triples(cp);
        let ps = col_pairs(c);
        let ts = col_triples(c);
        let lp = col_pairs(cp).len() as int;
        assert(ps == col_pairs(cp) + bench_pairs(b));
        assert(ts == col_triples(cp) + bench_triples(b));
        assert(forall|k: int| 0 <= k < c.len() ==> bench_names(c)[k] == c[k].name);

        // The last benchmark's name is fresh: the column is well formed.
        assert forall|k: int| 0 <= k < n implies c[k].name != b.name by {
            assert(c[k].name != c[n].name);
        }

        // Looking up an old triple is not changed by the appended entry.
        assert forall|k: int| #![trigger col_triples(c)[k]] 0 <= k < lp implies column_get(
            c,
            ts[k].0,
            ts[k].1,
        ) == Some(ts[k].2) by {
            assert(ts[k] == col_triples(cp)[k]);
            assert(column_get(cp, ts[k].0, ts[k].1) == Some(ts[k].2));
            lemma_find_name(bench_names(cp), ts[k].0);
            let fi = find_name(bench_names(cp), ts[k].0);
            assert(fi >= 0);
            assert(bench_names(c)[fi] == bench_names(cp)[fi]);
            assert forall|m: int| 0 <= m < fi implies bench_names(c)[m] != ts[k].0 by {
                assert(bench_names(cp)[m] != ts[k].0);
            }
            lemma_find_name_is(bench_names(c), ts[k].0, fi);
            assert(c[fi] == cp[fi]);
        }

        // Looking up a new triple finds the appended entry and, in it, the
        // triple's own parameter.
        assert forall|k: int| #![trigger col_triples(c)[k]] lp <= k < ts.len() implies column_get(
            c,
            ts[k].0,
            ts[k].1,
        ) == Some(ts[k].2) by {
            let m = k - lp;
            assert(ts[k] == bench_triples(b)[m]);
            assert(ts[k] == (b.name, b.params[m].name, b.params[m].value));
            assert forall|w: int| 0 <= w < n implies bench_names(c)[w] != b.name by {
                assert(c[w].name != b.name);
            }
            assert(bench_names(c)[n] == b.name);
            lemma_find_name_is(bench_names(c), b.name, n);
            assert(params_wf(b.params));
            assert(forall|w: int| 0 <= w < b.params.len() ==> param_names(b.params)[w]
                == b.params[w].name);
            assert forall|w: int| 0 <= w < m implies param_names(b.params)[w]
                != b.params[m].name by {
                assert(b.params[w].name != b.params[m].name);
            }
            lemma_find_name_is(param_names(b.params), b.params[m].name, m);
        }

        // Pair/triple alignment.
        assert forall|k: int| #![trigger col_pairs(c)[k]] 0 <= k < ps.len() implies ps[k] == (
            ts[k].0,
            ts[k].1,
        ) by {
            if k < lp {
                assert(ps[k] == col_pairs(cp)[k]);
                assert(ts[k] == col_triples(cp)[k]);
            } else {
                assert(ps[k] == bench_pairs(b)[k - lp]);
                assert(ts[k] == bench_triples(b)[k - lp]);
            }
        }

        // Every pair's benchmark name occurs in the column.
        assert forall|k: int| #![trigger col_pairs(c)[k]] 0 <= k < ps.len() implies bench_names(
            c,
        ).contains(ps[k].0) by {
            if k < lp {
                assert(ps[k] == col_pairs(cp)[k]);
                assert(bench_names(cp).contains(ps[k].0));
                let w = choose|w: int|
                    0 <= w < bench_names(cp).len() && bench_names(cp)[w] == ps[k].0;
                assert(bench_names(c)[w] == ps[k].0);
            } else {
                assert(ps[k] == bench_pairs(b)[k - lp]);
                assert(ps[k].0 == b.name);
                assert(bench_names(c)[n] == b.name);
            }
        }

        // No pair occurs twice.
        assert forall|i: int, j: int|
            0 <= i < ps.len() && 0 <= j < ps.len() && i != j implies ps[i] != ps[j] by {
            if i < lp && j < lp {
                assert(ps[i] == col_pairs(cp)[i]);
                assert(ps[j] == col_pairs(cp)[j]);
            } else if i >= lp && j >= lp {
                assert(ps[i] == bench_pairs(b)[i - lp]);
                assert(ps[j] == bench_pairs(b)[j - lp]);
                assert(b.params[i - lp].name != b.params[j - lp].name);
            } else {
                let (o, w) = if i < lp {
                    (i, j)
                } else {
                    (j, i)
                };
                assert(ps[o] == col_pairs(cp)[o]);
                assert(bench_names(cp).contains(ps[o].0));
                let u = choose|u: int|
                    0 <= u < bench_names(cp).len() && bench_names(cp)[u] == ps[o].0;
                assert(cp[u].name == ps[o].0);
                assert(cp[u] == c[u]);
                assert(c[u].name != b.name);
                assert(ps[w] == bench_pairs(b)[w - lp]);
                assert(ps[w].0 == b.name);
            }
        }
    }
}

/// Deduplication leaves a duplicate-free sequence exactly as it is.
pub proof fn lemma_dedup_first_nodup(s: Seq<(Seq<u8>, Seq<u8>)>)
    requires
        s.no_duplicates(),
    ensures
        dedup_first(s) == s,
    decreases s.len(),
{
    if s.len() > 0 {
        assert(s.drop_last().no_duplicates());
        lemma_dedup_first_nodup(s.drop_last());
        if s.drop_last().contains(s.last()) {
            let w = choose|w: int| 0 <= w < s.drop_last().len() && s.drop_last()[w] == s.last();
            assert(s[w] == s[s.len() - 1]);
            assert(false);
        }
        assert(dedup_first(s) =~= s);
    }
}

/// Round trip for a single column: the serialized table has one data row
/// per (benchmark, parameter, value) entry of the column, in the column's
/// own order and without duplication, and each row holds that entry's
/// benchmark, parameter and value — re-grouping the rows by benchmark and
/// parameter reproduces exactly the parsed mapping.
pub proof fn lemma_single_column_round_trip(t: Seq<ColModel>)
    requires
        t.len() == 1,
        table_wf(t),
    ensures
        ({
            let rows = table_rows(t).skip(1);
            let ts = col_triples(t[0].benches);
            &&& rows.len() == ts.len()
            &&& forall|k: int| 0 <= k < ts.len() ==> #[trigger] rows[k] == seq![
                ts[k].0,
                ts[k].1,
                ts[k].2,
            ]
            &&& col_pairs(t[0].benches).no_duplicates()
            &&& forall|k: int| #![trigger col_triples(t[0].benches)[k]]
                0 <= k < ts.len() ==> column_get(t[0].benches, ts[k].0, ts[k].1) == Some(ts[k].2)
        }),
{
    let c = t[0].benches;
    assert(column_wf(c));
    lemma_col_triples(c);
    assert(t.drop_last() =~= Seq::<ColModel>::empty());
    assert(all_pairs(t) == all_pairs(t.drop_last()) + col_pairs(t.last().benches));
    assert(all_pairs(t) =~= col_pairs(c));
    lemma_dedup_first_nodup(col_pairs(c));
    assert(union_pairs(t) == col_pairs(c));
    let rows = table_rows(t).skip(1);
    let ts = col_triples(c);
    assert(rows =~= union_pairs(t).map_values(|pair: (Seq<u8>, Seq<u8>)| data_row(t, pair)));
    assert forall|k: int| 0 <= k < ts.len() implies #[trigger] rows[k] == seq![
        ts[k].0,
        ts[k].1,
        ts[k].2,
    ] by {
        let pair = col_pairs(c)[k];
        assert(rows[k] == data_row(t, pair));
        assert(pair == (ts[k].0, ts[k].1));
        assert(column_get(c, ts[k].0, ts[k].1) == Some(ts[k].2));
        assert(cell(t[0], pair) == ts[k].2);
        assert(t.map_values(|col: ColModel| cell(col, pair)) =~= seq![cell(t[0], pair)]);
        assert(rows[k] =~= seq![ts[k].0, ts[k].1, ts[k].2]);
    }
}

/// With two columns whose benchmark names are entirely different, the
/// unioned pairs are exactly the first column's pairs followed by the
/// second column's pairs, each block in its own column's order: the union
/// order is deterministic and does not depend on which column holds which
/// pair.
pub proof fn lemma_union_disjoint_columns(t: Seq<ColModel>)
    requires
        t.len() == 2,
        table_wf(t),
        forall|i: int, j: int|
            0 <= i < t[0].benches.len() && 0 <= j < t[1].benches.len() ==> t[0].benches[i].name
                != t[1].benches[j].name,
    ensures
        union_pairs(t) == col_pairs(t[0].benches) + col_pairs(t[1].benches),
{
    let a = t[0].benches;
    let b = t[1].benches;
    assert(column_wf(a));
    assert(column_wf(b));
    lemma_col_triples(a);
    lemma_col_triples(b);
    assert(t.drop_last().drop_last() =~= Seq::<ColModel>::empty());
    assert(t.drop_last().last() == t[0]);
    assert(all_pairs(t.drop_last()) == all_pairs(t.drop_last().drop_last()) + col_pairs(a));
    assert(all_pairs(t.drop_last()) =~= col_pairs(a));
    assert(all_pairs(t) == all_pairs(t.drop_last()) + col_pairs(b));
    let s = col_pairs(a) + col_pairs(b);
    assert(all_pairs(t) =~= s);
    let la = col_pairs(a).len() as int;
    assert forall|i: int, j: int|
        0 <= i < s.len() && 0 <= j < s.len() && i != j implies s[i] != s[j] by {
        if i < la && j < la {
            assert(s[i] == col_pairs(a)[i]);
            assert(s[j] == col_pairs(a)[j]);
        } else if i >= la && j >= la {
            assert(s[i] == col_pairs(b)[i - la]);
            assert(s[j] == col_pairs(b)[j - la]);
        } else {
            let (o, w) = if i < la {
                (i, j)
            } else {
                (j, i)
            };
            assert(s[o] == col_pairs(a)[o]);
            assert(s[w] == col_pairs(b)[w - la]);
            assert(bench_names(a).contains(s[o].0));
            assert(bench_names(b).contains(s[w].0));
            let u = choose|u: int| 0 <= u < bench_names(a).len() && bench_names(a)[u] == s[o].0;
            let v = choose|v: int| 0 <= v < bench_names(b).len() && bench_names(b)[v] == s[w].0;
            assert(a[u].name == s[o].0);
            assert(b[v].name == s[w].0);
            assert(a[u].name != b[v].name);
        }
    }
    lemma_dedup_first_nodup(s);
    assert(union_pairs(t) == dedup_first(all_pairs(t)));
}

/// A (benchmark, parameter) pair that one column lacks still gets its row;
/// that column's cell in the row is the empty byte string, never an
/// omitted row.
pub proof fn lemma_missing_cell_empty(t: Seq<ColModel>, k: int, j: int)
    requires
        0 <= k < union_pairs(t).len(),
        0 <= j < t.len(),
        column_get(t[j].benches, union_pairs(t)[k].0, union_pairs(t)[k].1) is None,
    ensures
        1 + k < table_rows(t).len(),
        table_rows(t)[1 + k][2 + j] == Seq::<u8>::empty(),
{
    let pair = union_pairs(t)[k];
    assert(table_rows(t)[1 + k] == union_pairs(t).map_values(
        |p: (Seq<u8>, Seq<u8>)| data_row(t, p),
    )[k]);
    assert(table_rows(t)[1 + k] == data_row(t, pair));
    assert(data_row(t, pair)[2 + j] == t.map_values(|c: ColModel| cell(c, pair))[j]);
    assert(cell(t[j], pair) == Seq::<u8>::empty());
}

} // verus!
