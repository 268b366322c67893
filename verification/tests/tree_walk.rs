use header_patch::errors::Error;
use header_patch::walk::{walk, Node};

fn file(data: Vec<u8>) -> Node {
    Node::File { data }
}

fn dir(entries: Vec<Node>) -> Node {
    Node::Dir { entries }
}

#[test]
fn walk_patches_every_file_once_across_nesting() {
    // five regular files over three nesting levels
    let tree = dir(vec![
        file(vec![10, 11, 12]),
        dir(vec![file(vec![20, 21, 22, 23]), dir(vec![file(vec![30, 31, 32])])]),
        file(vec![40, 41, 42, 43, 44]),
        file(vec![50, 51, 52]),
    ]);
    let source: Vec<u8> = vec![1, 2, 99];
    let out = walk(&source, &tree, 2, 1).unwrap();

    // exactly one outcome (and so one backup) per regular file, in order
    assert_eq!(out.len(), 5);
    assert_eq!(out[0].backup, vec![10, 11]);
    assert_eq!(out[0].contents, vec![1, 2]);
    assert_eq!(out[1].backup, vec![20, 21]);
    assert_eq!(out[1].contents, vec![1, 2, 22]);
    assert_eq!(out[2].backup, vec![30, 31]);
    assert_eq!(out[2].contents, vec![1, 2]);
    assert_eq!(out[3].backup, vec![40, 41]);
    assert_eq!(out[3].contents, vec![1, 2, 42, 43]);
    assert_eq!(out[4].backup, vec![50, 51]);
    assert_eq!(out[4].contents, vec![1, 2]);
}

#[test]
fn walk_of_empty_directory_patches_nothing() {
    let tree = dir(Vec::new());
    let source: Vec<u8> = vec![1, 2];
    let out = walk(&source, &tree, 2, 0).unwrap();
    assert_eq!(out.len(), 0);
}

#[test]
fn walk_single_file_root() {
    let tree = file(vec![10, 11, 12]);
    let source: Vec<u8> = vec![1, 2];
    let out = walk(&source, &tree, 2, 0).unwrap();
    assert_eq!(out.len(), 1);
    assert_eq!(out[0].backup, vec![10, 11]);
    assert_eq!(out[0].contents, vec![1, 2, 12]);
}

#[test]
fn walk_aborts_on_first_bad_file() {
    // the nested file is too short for the header: the whole walk fails
    let tree = dir(vec![file(vec![10, 11, 12]), dir(vec![file(vec![20])]), file(vec![30, 31])]);
    let source: Vec<u8> = vec![1, 2];
    assert_eq!(walk(&source, &tree, 2, 0), Err(Error::ShortRead));
}

#[test]
fn walk_reports_underflow_of_deep_file() {
    let tree = dir(vec![dir(vec![file(vec![20, 21])])]);
    let source: Vec<u8> = vec![1, 2];
    assert_eq!(walk(&source, &tree, 2, 3), Err(Error::Underflow));
}
