use commit_report::refs::{RefEntry, RefIndex};

fn entry(target: &[u8], name: &str) -> RefEntry {
    RefEntry { target: target.to_vec(), name: name.to_string() }
}

const A: [u8; 3] = [0xaa, 0x00, 0x01];
const B: [u8; 3] = [0xbb, 0x00, 0x02];
const C: [u8; 3] = [0xcc, 0x00, 0x03];

#[test]
fn empty_index_has_no_names() {
    let mut index = RefIndex::new();
    let none: Vec<String> = vec![];
    assert_eq!(index.take(&A), none);
    assert_eq!(index.take(&[]), none);
}

#[test]
fn names_come_out_in_the_order_they_went_in() {
    let mut index = RefIndex::new();
    index.add(&B, "main");
    index.add(&A, "v1.0");
    index.add(&B, "origin/main");
    index.add(&B, "release");
    assert_eq!(index.take(&B), vec!["main", "origin/main", "release"]);
    assert_eq!(index.take(&A), vec!["v1.0"]);
}

#[test]
fn names_are_handed_out_once() {
    let mut index = RefIndex::new();
    index.add(&B, "main");
    index.add(&B, "dev");
    let none: Vec<String> = vec![];
    assert_eq!(index.take(&B), vec!["main", "dev"]);
    assert_eq!(index.take(&B), none);
    assert_eq!(index.take(&B), none);
}

#[test]
fn taking_one_commit_leaves_the_others() {
    let mut index = RefIndex::new();
    index.add(&A, "a");
    index.add(&B, "b");
    index.add(&C, "c");
    let none: Vec<String> = vec![];
    assert_eq!(index.take(&[0xdd]), none);
    assert_eq!(index.take(&B), vec!["b"]);
    assert_eq!(index.take(&A), vec!["a"]);
    assert_eq!(index.take(&C), vec!["c"]);
    assert_eq!(index.take(&A), none);
}

#[test]
fn adding_after_taking_starts_anew() {
    let mut index = RefIndex::new();
    index.add(&A, "old");
    assert_eq!(index.take(&A), vec!["old"]);
    index.add(&A, "new");
    assert_eq!(index.take(&A), vec!["new"]);
}

#[test]
fn the_same_name_twice_is_kept_twice() {
    let mut index = RefIndex::new();
    index.add(&A, "x");
    index.add(&A, "x");
    assert_eq!(index.take(&A), vec!["x", "x"]);
}

#[test]
fn building_from_the_enumeration() {
    let entries = vec![
        entry(&C, "HEAD"),
        entry(&B, "feature"),
        entry(&C, "main"),
        entry(&A, "v0.1"),
        entry(&C, "origin/main"),
    ];
    let mut index = RefIndex::build(&entries);
    let none: Vec<String> = vec![];
    assert_eq!(index.take(&C), vec!["HEAD", "main", "origin/main"]);
    assert_eq!(index.take(&B), vec!["feature"]);
    assert_eq!(index.take(&A), vec!["v0.1"]);
    assert_eq!(index.take(&C), none);
}

#[test]
fn building_from_nothing() {
    let mut index = RefIndex::build(&vec![]);
    let none: Vec<String> = vec![];
    assert_eq!(index.take(&A), none);
}

#[test]
fn hashes_that_differ_in_length_are_different_commits() {
    let mut index = RefIndex::new();
    index.add(&[0xaa], "short");
    index.add(&[0xaa, 0x00], "long");
    assert_eq!(index.take(&[0xaa, 0x00]), vec!["long"]);
    assert_eq!(index.take(&[0xaa]), vec!["short"]);
}
