//! Tests of the report parser.

use iai_parse::column::Column;
use iai_parse::report::{parse, parse_parameter_value, trim_leading_spaces, ParseError};
use iai_parse::table::Table;

fn get<'a>(c: &'a Column, b: &[u8], p: &[u8]) -> Option<&'a Vec<u8>> {
    c.get(&b.to_vec(), &p.to_vec())
}

#[test]
fn simple() {
    // An iai-style report parsed into the one "value" column and written
    // back as CSV.
    let input = b"bench_fibonacci_short\n  Instructions:                1735\n  L1 Accesses:                 2364\n  L2 Accesses:                    1\n  RAM Accesses:                   1\n  Estimated Cycles:            2404\n";
    let mut table = Table::default();
    {
        let column = table.column(b"value");
        parse(input, column).unwrap();
    }
    let output = table.write_csv();
    let expected = "benchmark,parameter,value\n\
        bench_fibonacci_short,Instructions,1735\n\
        bench_fibonacci_short,L1 Accesses,2364\n\
        bench_fibonacci_short,L2 Accesses,1\n\
        bench_fibonacci_short,RAM Accesses,1\n\
        bench_fibonacci_short,Estimated Cycles,2404\n";
    assert_eq!(String::from_utf8(output).unwrap(), expected);
}

#[test]
fn value_extraction_strips_annotation() {
    let mut table = Table::default();
    let column = table.column(b"value");
    parse(b"x\n  Instructions:     451 (+0.0%)\n", column).unwrap();
    assert_eq!(get(column, b"x", b"Instructions").unwrap(), b"451");
}

#[test]
fn parse_parameter_value_first_run() {
    assert_eq!(parse_parameter_value(b"     451 (+0.0%)"), b"451");
    assert_eq!(parse_parameter_value(b"451"), b"451");
    assert_eq!(parse_parameter_value(b"  12:34:56 rest"), b"12:34:56");
}

#[test]
fn trim_leading_spaces_cases() {
    assert_eq!(trim_leading_spaces(b"   abc "), b"abc ");
    assert_eq!(trim_leading_spaces(b"abc"), b"abc");
    // An all-space input is returned whole.
    assert_eq!(trim_leading_spaces(b"   "), b"   ");
    assert_eq!(trim_leading_spaces(b""), b"");
}

#[test]
fn missing_colon_is_fatal() {
    let mut column = Column::default();
    assert_eq!(parse(b"  garbage", &mut column), Err(ParseError::MissingColon));
    // The column is left unchanged.
    assert!(column.benchmarks().is_empty());
}

#[test]
fn missing_colon_after_valid_lines_leaves_column_unchanged() {
    let mut column = Column::default();
    assert_eq!(
        parse(b"a\n  p: 1\n  garbage\n", &mut column),
        Err(ParseError::MissingColon)
    );
    assert!(column.benchmarks().is_empty());
}

#[test]
fn empty_value_is_fatal() {
    let mut column = Column::default();
    assert_eq!(parse(b"a\n  name:   \n", &mut column), Err(ParseError::EmptyValue));
    let mut column = Column::default();
    assert_eq!(parse(b"a\n  name:", &mut column), Err(ParseError::EmptyValue));
}

#[test]
fn no_indented_lines_no_rows() {
    let mut table = Table::default();
    {
        let column = table.column(b"value");
        parse(b"bench_a\nbench_b\n\nbench_c", column).unwrap();
    }
    assert!(table.benchmarks_and_parameters().is_empty());
    let output = table.write_csv();
    assert_eq!(String::from_utf8(output).unwrap(), "benchmark,parameter,value\n");
}

#[test]
fn empty_report_no_rows() {
    let mut column = Column::default();
    parse(b"", &mut column).unwrap();
    assert!(column.benchmarks().is_empty());
}

#[test]
fn end_to_end_scenario() {
    let input = b"bench_a\n  Instructions: 100\n  L1 Hits: 50\nbench_b\n  Instructions: 200\n";
    let mut table = Table::default();
    {
        let column = table.column(b"value");
        parse(input, column).unwrap();
    }
    let output = table.write_csv();
    let expected = "benchmark,parameter,value\n\
        bench_a,Instructions,100\n\
        bench_a,L1 Hits,50\n\
        bench_b,Instructions,200\n";
    assert_eq!(String::from_utf8(output).unwrap(), expected);
}

#[test]
fn lines_split_on_cr_and_lf() {
    let mut column = Column::default();
    parse(b"a\r\n  p: 1\r  q: 2\n", &mut column).unwrap();
    assert_eq!(get(&column, b"a", b"p").unwrap(), b"1");
    assert_eq!(get(&column, b"a", b"q").unwrap(), b"2");
}

#[test]
fn parameters_before_any_benchmark_use_empty_name() {
    let mut table = Table::default();
    {
        let column = table.column(b"value");
        parse(b"  early: 7\nb\n  late: 8\n", column).unwrap();
    }
    let output = table.write_csv();
    let expected = "benchmark,parameter,value\n,early,7\nb,late,8\n";
    assert_eq!(String::from_utf8(output).unwrap(), expected);
}

#[test]
fn repeated_parameter_last_write_wins() {
    let mut table = Table::default();
    {
        let column = table.column(b"value");
        parse(b"a\n  p: 1\n  q: 5\n  p: 2\n", column).unwrap();
    }
    // The later value overwrites in place: p keeps its first position.
    let output = table.write_csv();
    let expected = "benchmark,parameter,value\na,p,2\na,q,5\n";
    assert_eq!(String::from_utf8(output).unwrap(), expected);
}

#[test]
fn colons_in_value_belong_to_the_value() {
    let mut column = Column::default();
    parse(b"a\n  time: 12:34:56 (+1%)\n", &mut column).unwrap();
    assert_eq!(get(&column, b"a", b"time").unwrap(), b"12:34:56");
}

#[test]
fn returning_benchmark_context_reuses_entry() {
    let mut table = Table::default();
    {
        let column = table.column(b"value");
        parse(b"a\n  p: 1\nb\n  q: 2\na\n  r: 3\n", column).unwrap();
    }
    let output = table.write_csv();
    // a's later parameter joins a's earlier one; rows follow first
    // occurrence of each (benchmark, parameter) pair.
    let expected = "benchmark,parameter,value\na,p,1\na,r,3\nb,q,2\n";
    assert_eq!(String::from_utf8(output).unwrap(), expected);
}
