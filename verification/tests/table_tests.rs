//! Tests of the table: accumulation, union ordering, headers and CSV.

use iai_parse::column::Column;
use iai_parse::report::parse;
use iai_parse::table::Table;

#[test]
fn union_of_disjoint_columns_keeps_block_order() {
    let mut table = Table::default();
    parse(b"alpha\n  p: 1\n  q: 2\nbeta\n  r: 3\n", table.column(b"one")).unwrap();
    parse(b"gamma\n  s: 4\n", table.column(b"two")).unwrap();
    let pairs = table.benchmarks_and_parameters();
    let expected: Vec<(Vec<u8>, Vec<u8>)> = vec![
        (b"alpha".to_vec(), b"p".to_vec()),
        (b"alpha".to_vec(), b"q".to_vec()),
        (b"beta".to_vec(), b"r".to_vec()),
        (b"gamma".to_vec(), b"s".to_vec()),
    ];
    assert_eq!(pairs, expected);
}

#[test]
fn missing_cell_renders_empty_not_omitted() {
    let mut table = Table::default();
    parse(b"a\n  p: 1\n  q: 2\n", table.column(b"run1")).unwrap();
    parse(b"a\n  p: 10\n", table.column(b"run2")).unwrap();
    let output = table.write_csv();
    let expected = "benchmark,parameter,run1,run2\na,p,1,10\na,q,2,\n";
    assert_eq!(String::from_utf8(output).unwrap(), expected);
}

#[test]
fn pair_only_in_later_column_still_gets_a_row() {
    let mut table = Table::default();
    parse(b"a\n  p: 1\n", table.column(b"run1")).unwrap();
    parse(b"a\n  p: 2\n  extra: 9\n", table.column(b"run2")).unwrap();
    let output = table.write_csv();
    let expected = "benchmark,parameter,run1,run2\na,p,1,2\na,extra,,9\n";
    assert_eq!(String::from_utf8(output).unwrap(), expected);
}

#[test]
fn same_column_name_accumulates() {
    // Two inputs merged under one column name: re-asking for the column
    // returns the existing one.
    let mut table = Table::default();
    parse(b"a\n  p: 1\n", table.column(b"value")).unwrap();
    parse(b"b\n  q: 2\n", table.column(b"value")).unwrap();
    let output = table.write_csv();
    let expected = "benchmark,parameter,value\na,p,1\nb,q,2\n";
    assert_eq!(String::from_utf8(output).unwrap(), expected);
}

#[test]
fn headers_name_the_columns_in_insertion_order() {
    let mut table = Table::default();
    table.column(b"first");
    table.column(b"second");
    table.column(b"first");
    let headers = table.headers();
    let expected: Vec<Vec<u8>> = vec![
        b"benchmark".to_vec(),
        b"parameter".to_vec(),
        b"first".to_vec(),
        b"second".to_vec(),
    ];
    assert_eq!(headers, expected);
}

#[test]
fn csv_quotes_fields_that_need_it() {
    let mut table = Table::default();
    {
        let column = table.column(b"value");
        // A benchmark name holding a comma and a quote, and a value
        // holding a comma: both must be quoted, the quote doubled.
        parse(b"ben,ch\"x\n  p: v,1\n", column).unwrap();
    }
    let output = table.write_csv();
    let expected = "benchmark,parameter,value\n\"ben,ch\"\"x\",p,\"v,1\"\n";
    assert_eq!(String::from_utf8(output).unwrap(), expected);
}

#[test]
fn column_get_and_set() {
    let mut column = Column::default();
    column.set(b"bench", b"param", b"42");
    assert_eq!(
        column.get(&b"bench".to_vec(), &b"param".to_vec()).unwrap(),
        b"42"
    );
    assert!(column.get(&b"bench".to_vec(), &b"other".to_vec()).is_none());
    assert!(column.get(&b"missing".to_vec(), &b"param".to_vec()).is_none());
    column.set(b"bench", b"param", b"43");
    assert_eq!(
        column.get(&b"bench".to_vec(), &b"param".to_vec()).unwrap(),
        b"43"
    );
    assert_eq!(column.benchmarks().len(), 1);
}

#[test]
fn non_utf8_bytes_pass_through() {
    let mut table = Table::default();
    {
        let column = table.column(b"value");
        parse(b"b\xff\n  p\xfe: v\xfd\n", column).unwrap();
    }
    let output = table.write_csv();
    let expected = b"benchmark,parameter,value\nb\xff,p\xfe,v\xfd\n".to_vec();
    assert_eq!(output, expected);
}
