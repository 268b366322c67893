use header_patch::bytes::{new_length, read_header, replace_header, truncate, write_header};
use header_patch::errors::Error;

#[test]
fn read_header_takes_prefix() {
    let data: Vec<u8> = vec![1, 2, 3, 4, 5];
    let head = read_header(&data, 3).unwrap();
    assert_eq!(head, vec![1, 2, 3]);
}

#[test]
fn read_header_whole_file() {
    let data: Vec<u8> = vec![9, 9];
    let head = read_header(&data, 2).unwrap();
    assert_eq!(head, vec![9, 9]);
}

#[test]
fn read_header_short_input() {
    let data: Vec<u8> = vec![1, 2];
    assert_eq!(read_header(&data, 3), Err(Error::ShortRead));
}

#[test]
fn write_header_overwrites_prefix_only() {
    let mut dest: Vec<u8> = vec![1, 2, 3, 4];
    let header: Vec<u8> = vec![8, 9];
    write_header(&mut dest, &header);
    assert_eq!(dest, vec![8, 9, 3, 4]);
}

#[test]
fn replace_header_swaps_and_backs_up() {
    let source: Vec<u8> = vec![7, 8, 100];
    let mut dest: Vec<u8> = vec![10, 11, 12, 13];
    let backup = replace_header(&source, &mut dest, 2).unwrap();
    assert_eq!(backup, vec![10, 11]);
    assert_eq!(dest, vec![7, 8, 12, 13]);
}

#[test]
fn replace_header_short_source_leaves_dest_alone() {
    let source: Vec<u8> = vec![7];
    let mut dest: Vec<u8> = vec![10, 11, 12];
    let r = replace_header(&source, &mut dest, 2);
    assert_eq!(r, Err(Error::ShortRead));
    assert_eq!(dest, vec![10, 11, 12]);
}

#[test]
fn replace_header_short_dest_leaves_dest_alone() {
    let source: Vec<u8> = vec![7, 8];
    let mut dest: Vec<u8> = vec![10];
    let r = replace_header(&source, &mut dest, 2);
    assert_eq!(r, Err(Error::ShortRead));
    assert_eq!(dest, vec![10]);
}

#[test]
fn truncate_removes_trailing_bytes() {
    let mut data: Vec<u8> = vec![1, 2, 3, 4, 5];
    assert_eq!(truncate(&mut data, 2), Ok(()));
    assert_eq!(data, vec![1, 2, 3]);
}

#[test]
fn truncate_by_zero_changes_nothing() {
    let mut data: Vec<u8> = vec![1, 2];
    assert_eq!(truncate(&mut data, 0), Ok(()));
    assert_eq!(data, vec![1, 2]);
}

#[test]
fn truncate_to_empty() {
    let mut data: Vec<u8> = vec![1, 2];
    assert_eq!(truncate(&mut data, 2), Ok(()));
    assert_eq!(data, Vec::<u8>::new());
}

#[test]
fn truncate_underflow_rejected_without_change() {
    let mut data: Vec<u8> = vec![1, 2, 3];
    assert_eq!(truncate(&mut data, 4), Err(Error::Underflow));
    assert_eq!(data, vec![1, 2, 3]);
}

#[test]
fn new_length_subtracts() {
    assert_eq!(new_length(100, 40), Ok(60));
    assert_eq!(new_length(5, 5), Ok(0));
}

#[test]
fn new_length_underflow_rejected() {
    assert_eq!(new_length(5, 6), Err(Error::Underflow));
}
