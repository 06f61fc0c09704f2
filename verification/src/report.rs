//! The report parser.
//!
//! A report is a byte string whose lines are split on LF or CR. A line that
//! starts with a space records a parameter for the current benchmark: the
//! text before the first colon (leading spaces stripped) names the
//! parameter, and the first maximal run of non-space bytes after the colon
//! is its value. Any other non-empty line names the current benchmark. An
//! indented line without a colon, or one whose text after the colon holds
//! no non-space byte, is a fatal parse error.

use vstd::prelude::*;

use crate::column::{column_set, BenchModel, Column};

verus! {

/// A line terminator: LF or CR.
pub open spec fn is_line_term(c: u8) -> bool {
    c == 10 || c == 13
}

/// Whether position `i` begins a line: the start of the report, or the
/// position right after a line terminator.
pub open spec fn begins_line(s: Seq<u8>, i: int) -> bool {
    i == 0 || (0 < i <= s.len() && is_line_term(s[i - 1]))
}

/// The space byte.
pub open spec fn is_space(c: u8) -> bool {
    c == 32
}

/// The colon byte.
pub open spec fn is_colon(c: u8) -> bool {
    c == 58
}

/// First position at or after `i` holding a line terminator, or the length.
pub open spec fn find_line_term(s: Seq<u8>, i: int) -> int
    decreases s.len() - i,
{
    if i < 0 || i >= s.len() {
        s.len() as int
    } else if is_line_term(s[i]) {
        i
    } else {
        find_line_term(s, i + 1)
    }
}

/// First position at or after `i` holding a non-space byte, or the length.
pub open spec fn find_nonspace(s: Seq<u8>, i: int) -> int
    decreases s.len() - i,
{
    if i < 0 || i >= s.len() {
        s.len() as int
    } else if !is_space(s[i]) {
        i
    } else {
        find_nonspace(s, i + 1)
    }
}

/// First position at or after `i` holding a space byte, or the length.
pub open spec fn find_space(s: Seq<u8>, i: int) -> int
    decreases s.len() - i,
{
    if i < 0 || i >= s.len() {
        s.len() as int
    } else if is_space(s[i]) {
        i
    } else {
        find_space(s, i + 1)
    }
}

/// First position at or after `i` holding a colon, or the length.
pub open spec fn find_colon(s: Seq<u8>, i: int) -> int
    decreases s.len() - i,
{
    if i < 0 || i >= s.len() {
        s.len() as int
    } else if is_colon(s[i]) {
        i
    } else {
        find_colon(s, i + 1)
    }
}

/// A scan that saw no terminator in `[i, j)` and one at `j` (or the end)
/// pins `find_line_term` down to `j`.
pub proof fn lemma_find_line_term_is(s: Seq<u8>, i: int, j: int)
    requires
        0 <= i <= j <= s.len(),
        forall|k: int| i <= k < j ==> !is_line_term(s[k]),
        j < s.len() ==> is_line_term(s[j]),
    ensures
        find_line_term(s, i) == j,
    decreases j - i,
{
    if i < j {
        lemma_find_line_term_is(s, i + 1, j);
    }
}

/// The same characterization for `find_nonspace`.
pub proof fn lemma_find_nonspace_is(s: Seq<u8>, i: int, j: int)
    requires
        0 <= i <= j <= s.len(),
        forall|k: int| i <= k < j ==> is_space(s[k]),
        j < s.len() ==> !is_space(s[j]),
    ensures
        find_nonspace(s, i) == j,
    decreases j - i,
{
    if i < j {
        lemma_find_nonspace_is(s, i + 1, j);
    }
}

/// The same characterization for `find_space`.
pub proof fn lemma_find_space_is(s: Seq<u8>, i: int, j: int)
    requires
        0 <= i <= j <= s.len(),
        forall|k: int| i <= k < j ==> !is_space(s[k]),
        j < s.len() ==> is_space(s[j]),
    ensures
        find_space(s, i) == j,
    decreases j - i,
{
    if i < j {
        lemma_find_space_is(s, i + 1, j);
    }
}

/// The same characterization for `find_colon`.
pub proof fn lemma_find_colon_is(s: Seq<u8>, i: int, j: int)
    requires
        0 <= i <= j <= s.len(),
        forall|k: int| i <= k < j ==> !is_colon(s[k]),
        j < s.len() ==> is_colon(s[j]),
    ensures
        find_colon(s, i) == j,
    decreases j - i,
{
    if i < j {
        lemma_find_colon_is(s, i + 1, j);
    }
}

/// Bounds and meaning of `find_line_term`.
pub proof fn lemma_find_line_term(s: Seq<u8>, i: int)
    requires
        0 <= i <= s.len(),
    ensures
        ({
            let j = find_line_term(s, i);
            &&& i <= j <= s.len()
            &&& forall|k: int| i <= k < j ==> !is_line_term(s[k])
            &&& j < s.len() ==> is_line_term(s[j])
        }),
    decreases s.len() - i,
{
    if i < s.len() && !is_line_term(s[i]) {
        lemma_find_line_term(s, i + 1);
    }
}

/// Bounds and meaning of `find_nonspace`.
pub proof fn lemma_find_nonspace(s: Seq<u8>, i: int)
    requires
        0 <= i <= s.len(),
    ensures
        ({
            let j = find_nonspace(s, i);
            &&& i <= j <= s.len()
            &&& forall|k: int| i <= k < j ==> is_space(s[k])
            &&& j < s.len() ==> !is_space(s[j])
        }),
    decreases s.len() - i,
{
    if i < s.len() && is_space(s[i]) {
        lemma_find_nonspace(s, i + 1);
    }
}

/// Bounds and meaning of `find_space`.
pub proof fn lemma_find_space(s: Seq<u8>, i: int)
    requires
        0 <= i <= s.len(),
    ensures
        ({
            let j = find_space(s, i);
            &&& i <= j <= s.len()
            &&& forall|k: int| i <= k < j ==> !is_space(s[k])
            &&& j < s.len() ==> is_space(s[j])
        }),
    decreases s.len() - i,
{
    if i < s.len() && !is_space(s[i]) {
        lemma_find_space(s, i + 1);
    }
}

/// The input with its leading spaces removed; an all-space input is
/// returned whole.
pub open spec fn trim_spec(s: Seq<u8>) -> Seq<u8> {
    let i = find_nonspace(s, 0);
    if i == s.len() {
        s
    } else {
        s.skip(i)
    }
}

/// Whether the text after the colon holds a non-space byte, i.e. a value.
pub open spec fn has_value(rest: Seq<u8>) -> bool {
    find_nonspace(rest, 0) < rest.len()
}

/// Where the value starts: the first non-space byte.
pub open spec fn value_start(rest: Seq<u8>) -> int {
    find_nonspace(rest, 0)
}

/// Where the value ends: the first space after its start.
pub open spec fn value_end(rest: Seq<u8>) -> int {
    find_space(rest, value_start(rest) + 1)
}

/// The first maximal run of non-space bytes of the text after the colon.
pub open spec fn param_value(rest: Seq<u8>) -> Seq<u8> {
    rest.subrange(value_start(rest), value_end(rest))
}

/// Find the subslice with leading spaces removed.
pub fn trim_leading_spaces(input: &[u8]) -> (r: &[u8])
    ensures
        r@ == trim_spec(input@),
{
    let mut i: usize = 0;
    while i < input.len() && input[i] == 32u8
        invariant
            i <= input.len(),
            forall|k: int| 0 <= k < i ==> is_space(input@[k]),
        decreases input.len() - i,
    {
        i = i + 1;
    }
    proof {
        lemma_find_nonspace_is(input@, 0, i as int);
    }
    if i < input.len() {
        vstd::slice::slice_subrange(input, i, input.len())
    } else {
        input
    }
}

/// Find the first sequence of non-space bytes as a subslice.
pub fn parse_parameter_value(input: &[u8]) -> (r: &[u8])
    requires
        has_value(input@),
    ensures
        r@ == param_value(input@),
{
    proof {
        lemma_find_nonspace(input@, 0);
    }
    let mut start: usize = 0;
    while input[start] == 32u8
        invariant
            0 <= start <= find_nonspace(input@, 0),
            forall|k: int| 0 <= k < start ==> is_space(input@[k]),
        decreases input.len() - start,
    {
        start = start + 1;
        proof {
            lemma_find_nonspace(input@, 0);
        }
    }
    proof {
        lemma_find_nonspace_is(input@, 0, start as int);
    }
    let mut end: usize = start + 1;
    while end < input.len() && input[end] != 32u8
        invariant
            start + 1 <= end <= input.len(),
            forall|k: int| start + 1 <= k < end ==> !is_space(input@[k]),
        decreases input.len() - end,
    {
        end = end + 1;
    }
    proof {
        lemma_find_space_is(input@, start as int + 1, end as int);
    }
    vstd::slice::slice_subrange(input, start, end)
}

/// Why a report was rejected.
#[derive(Clone, Copy, Debug, PartialEq, Eq, Structural)]
pub enum ParseError {
    /// An indented line holds no colon, so no parameter name can be read.
    MissingColon,
    /// The text after an indented line's colon holds no non-space byte.
    EmptyValue,
}

/// What one line of a report means.
pub ghost enum LineStep {
    /// An empty line; nothing is recorded.
    Skip,
    /// A benchmark-name line: the new current benchmark.
    Bench(Seq<u8>),
    /// A parameter line: a name and a value for the current benchmark.
    Record(Seq<u8>, Seq<u8>),
    /// A malformed parameter line.
    Fail(ParseError),
}

/// Classify one line, already split out of the report.
pub open spec fn classify_line(line: Seq<u8>) -> LineStep {
    if line.len() == 0 {
        LineStep::Skip
    } else if is_space(line[0]) {
        let t = trim_spec(line);
        let ci = find_colon(t, 0);
        if ci == t.len() {
            LineStep::Fail(ParseError::MissingColon)
        } else {
            let rest = t.skip(ci + 1);
            if !has_value(rest) {
                LineStep::Fail(ParseError::EmptyValue)
            } else {
                LineStep::Record(t.take(ci), param_value(rest))
            }
        }
    } else {
        LineStep::Bench(line)
    }
}

/// Parse the report `s` from position `i` on, with `bench` the current
/// benchmark name, recording into `col`. Lines are the maximal runs of
/// non-terminator bytes; a terminator at the very end yields one trailing
/// empty line, which is skipped.
pub open spec fn parse_rec(s: Seq<u8>, i: int, bench: Seq<u8>, col: Seq<BenchModel>) -> Result<
    Seq<BenchModel>,
    ParseError,
>
    decreases s.len() - i,
    via parse_rec_dec
{
    if i < 0 || i > s.len() {
        Ok(col)
    } else {
        let j = find_line_term(s, i);
        let line = s.subrange(i, j);
        match classify_line(line) {
            LineStep::Fail(e) => Err(e),
            step => {
                let bench2 = if step is Bench {
                    step->Bench_0
                } else {
                    bench
                };
                let col2 = if step is Record {
                    column_set(col, bench, step->Record_0, step->Record_1)
                } else {
                    col
                };
                if j >= s.len() {
                    Ok(col2)
                } else {
                    parse_rec(s, j + 1, bench2, col2)
                }
            },
        }
    }
}

#[via_fn]
proof fn parse_rec_dec(s: Seq<u8>, i: int, bench: Seq<u8>, col: Seq<BenchModel>) {
    if 0 <= i <= s.len() {
        lemma_find_line_term(s, i);
    }
}

/// What parsing a whole report records into `col`: the benchmark context
/// starts out empty, so parameter lines before any benchmark line are
/// recorded under the empty name.
pub open spec fn parse_spec(s: Seq<u8>, col: Seq<BenchModel>) -> Result<
    Seq<BenchModel>,
    ParseError,
> {
    parse_rec(s, 0, Seq::empty(), col)
}

/// The view of a buffered (benchmark, parameter, value) triple.
pub open spec fn triple_views(ts: Seq<(Vec<u8>, Vec<u8>, Vec<u8>)>) -> Seq<
    (Seq<u8>, Seq<u8>, Seq<u8>),
> {
    ts.map_values(|t: (Vec<u8>, Vec<u8>, Vec<u8>)| (t.0@, t.1@, t.2@))
}

/// Record the triples into `col`, first to last.
pub open spec fn apply_triples(
    col: Seq<BenchModel>,
    ts: Seq<(Seq<u8>, Seq<u8>, Seq<u8>)>,
) -> Seq<BenchModel>
    decreases ts.len(),
{
    if ts.len() == 0 {
        col
    } else {
        column_set(apply_triples(col, ts.drop_last()), ts.last().0, ts.last().1, ts.last().2)
    }
}

/// Parse a report and record every (benchmark, parameter, value) triple
/// into the passed column, in report order, later entries overwriting
/// earlier ones under the same names. On a malformed report the column is
/// left unchanged and the error says what was wrong.
pub fn parse(input: &[u8], column: &mut Column) -> (r: Result<(), ParseError>)
    ensures
        match r {
            Ok(()) => parse_spec(input@, old(column)@) == Ok::<Seq<BenchModel>, ParseError>(
                final(column)@,
            ),
            Err(e) => parse_spec(input@, old(column)@) == Err::<Seq<BenchModel>, ParseError>(e)
                && final(column)@ == old(column)@,
        },
{
    let ghost c0 = column@;
    let mut triples: Vec<(Vec<u8>, Vec<u8>, Vec<u8>)> = Vec::new();
    let mut bench: Vec<u8> = Vec::new();
    let mut i: usize = 0;
    proof {
        assert(triple_views(triples@) =~= Seq::<(Seq<u8>, Seq<u8>, Seq<u8>)>::empty());
    }
    #[verifier::loop_isolation(true)]
    loop
        invariant_except_break
            i <= input.len(),
            parse_spec(input@, c0) == parse_rec(
                input@,
                i as int,
                bench@,
                apply_triples(c0, triple_views(triples@)),
            ),
        invariant
            column@ == c0,
        ensures
            parse_spec(input@, c0) == Ok::<Seq<BenchModel>, ParseError>(
                apply_triples(c0, triple_views(triples@)),
            ),
        decreases input.len() - i,
    {
        let ghost acc = apply_triples(c0, triple_views(triples@));
        // Find the end of the current line.
        let mut j: usize = i;
        while j < input.len() && input[j] != 10u8 && input[j] != 13u8
            invariant
                i <= j <= input.len(),
                forall|k: int| i <= k < j ==> !is_line_term(input@[k]),
            decreases input.len() - j,
        {
            j = j + 1;
        }
        proof {
            lemma_find_line_term_is(input@, i as int, j as int);
        }
        let line = vstd::slice::slice_subrange(input, i, j);
        let ghost linev = input@.subrange(i as int, j as int);
        if line.len() > 0 {
            if line[0] == 32u8 {
                // Parameter line.
                let t = trim_leading_spaces(line);
                let mut ci: usize = 0;
                while ci < t.len() && t[ci] != 58u8
                    invariant
                        ci <= t.len(),
                        forall|k: int| 0 <= k < ci ==> !is_colon(t@[k]),
                    decreases t.len() - ci,
                {
                    ci = ci + 1;
                }
                proof {
                    lemma_find_colon_is(t@, 0, ci as int);
                }
                if ci == t.len() {
                    proof {
                        assert(classify_line(linev) == LineStep::Fail(ParseError::MissingColon));
                    }
                    return Err(ParseError::MissingColon);
                }
                let rest = vstd::slice::slice_subrange(t, ci + 1, t.len());
                proof {
                    assert(rest@ =~= t@.skip(ci + 1));
                }
                // Is there a value after the colon?
                let mut vs: usize = 0;
                while vs < rest.len() && rest[vs] == 32u8
                    invariant
                        vs <= rest.len(),
                        forall|k: int| 0 <= k < vs ==> is_space(rest@[k]),
                    decreases rest.len() - vs,
                {
                    vs = vs + 1;
                }
                proof {
                    lemma_find_nonspace_is(rest@, 0, vs as int);
                }
                if vs == rest.len() {
                    proof {
                        assert(classify_line(linev) == LineStep::Fail(ParseError::EmptyValue));
                    }
                    return Err(ParseError::EmptyValue);
                }
                let value = parse_parameter_value(rest);
                let name = vstd::slice::slice_subrange(t, 0, ci);
                proof {
                    assert(name@ =~= t@.take(ci as int));
                    assert(classify_line(linev) == LineStep::Record(t@.take(ci as int),
                    param_value(t@.skip(ci + 1))));
                }
                let ghost ts_before = triple_views(triples@);
                triples.push(
                    (
                        vstd::slice::slice_to_vec(bench.as_slice()),
                        vstd::slice::slice_to_vec(name),
                        vstd::slice::slice_to_vec(value),
                    ),
                );
                proof {
                    assert(triple_views(triples@).drop_last() =~= ts_before);
                    assert(apply_triples(c0, triple_views(triples@)) == column_set(
                        acc,
                        bench@,
                        name@,
                        value@,
                    ));
                }
            } else {
                // Benchmark-name line.
                proof {
                    assert(classify_line(linev) == LineStep::Bench(linev));
                }
                bench = vstd::slice::slice_to_vec(line);
            }
        } else {
            proof {
                assert(classify_line(linev) == LineStep::Skip);
            }
        }
        if j == input.len() {
            break ;
        }
        i = j + 1;
    }
    // The report is well formed; record the triples in order.
    let ghost total = apply_triples(c0, triple_views(triples@));
    let mut k: usize = 0;
    while k < triples.len()
        invariant
            k <= triples.len(),
            column@ == apply_triples(c0, triple_views(triples@).take(k as int)),
        decreases triples.len() - k,
    {
        let t = &triples[k];
        column.set(t.0.as_slice(), t.1.as_slice(), t.2.as_slice());
        proof {
            let tv = triple_views(triples@);
            assert(tv.take(k + 1).drop_last() =~= tv.take(k as int));
            assert(tv.take(k + 1).last() == tv[k as int]);
        }
        k = k + 1;
    }
    proof {
        assert(triple_views(triples@).take(triples@.len() as int) =~= triple_views(triples@));
    }
    Ok(())
}

} // verus!
