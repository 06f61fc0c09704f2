//! Tests of the revision-range decisions.

use iai_parse::revs::{
    abbrev, expand_range, revision_column_name, revspec_plan, RevspecError, RevspecKind,
};

#[test]
fn revspec_plan_cases() {
    assert_eq!(revspec_plan(false, false), Err(RevspecError::NoRevisions));
    assert_eq!(revspec_plan(false, true), Err(RevspecError::ToOnly));
    assert_eq!(revspec_plan(true, false), Ok(RevspecKind::Single));
    assert_eq!(revspec_plan(true, true), Ok(RevspecKind::Range));
}

#[test]
fn expand_range_filters_from_ancestors_in_order() {
    let to_walk: Vec<Vec<u8>> = vec![b"aaa".to_vec(), b"bbb".to_vec(), b"ccc".to_vec()];
    let from_set: Vec<Vec<u8>> = vec![b"bbb".to_vec(), b"zzz".to_vec()];
    let expected: Vec<Vec<u8>> = vec![b"aaa".to_vec(), b"ccc".to_vec()];
    assert_eq!(expand_range(&to_walk, &from_set), expected);
}

#[test]
fn expand_range_keeps_everything_when_from_is_empty() {
    let to_walk: Vec<Vec<u8>> = vec![b"aaa".to_vec(), b"bbb".to_vec()];
    let from_set: Vec<Vec<u8>> = Vec::new();
    assert_eq!(expand_range(&to_walk, &from_set), to_walk);
}

#[test]
fn abbrev_truncates_to_seven() {
    assert_eq!(abbrev(b"0123456789abcdef"), b"0123456".to_vec());
    assert_eq!(abbrev(b"012345"), b"012345".to_vec());
    assert_eq!(abbrev(b"0123456"), b"0123456".to_vec());
}

#[test]
fn revision_column_name_joins_with_a_space() {
    assert_eq!(
        revision_column_name(b"0123456", b"Fix the frobnicator"),
        b"0123456 Fix the frobnicator".to_vec()
    );
    assert_eq!(revision_column_name(b"abc", b""), b"abc ".to_vec());
}
