use p9::{Error, FidTable, P9String, Path, Resource};

fn path(names: &[&[u8]]) -> Path {
    let mut p = Path::root();
    for n in names {
        p = p.step(&P9String::new(n).unwrap()).unwrap();
    }
    p
}

fn unopened(names: &[&[u8]]) -> Resource {
    Resource::Unopened { resolved_path: path(names) }
}

fn file(descriptor: i32) -> Resource {
    Resource::OpenFile { descriptor, resolved_path: path(&[b"f"]) }
}

fn dir(descriptor: i32) -> Resource {
    Resource::OpenDir { descriptor, resolved_path: path(&[b"d"]), last_offset: 0 }
}

#[test]
fn new_table_is_empty() {
    let t = FidTable::new();
    assert_eq!(t.len(), 0);
    assert!(!t.contains(0));
    assert_eq!(t.get(0), Err(Error::UnknownFid));
}

#[test]
fn insert_then_get() {
    let mut t = FidTable::new();
    assert_eq!(t.insert(4, file(10)), Ok(()));
    assert_eq!(t.get(4), Ok(&file(10)));
    assert!(t.contains(4));
    assert_eq!(t.len(), 1);
    assert_eq!(t.get(5), Err(Error::UnknownFid));
}

#[test]
fn insert_on_bound_identifier_is_refused() {
    let mut t = FidTable::new();
    assert_eq!(t.insert(4, file(10)), Ok(()));
    assert_eq!(t.insert(4, dir(11)), Err((Error::DuplicateFid, dir(11))));
    assert_eq!(t.get(4), Ok(&file(10)));
    assert_eq!(t.len(), 1);
}

#[test]
fn remove_hands_out_the_resource() {
    let mut t = FidTable::new();
    t.insert(4, dir(11)).unwrap();
    t.insert(5, unopened(&[b"a"])).unwrap();
    let removed = t.remove(4).unwrap();
    assert_eq!(removed.descriptor(), Some(11));
    assert_eq!(removed, dir(11));
    assert!(!t.contains(4));
    assert!(t.contains(5));
    assert_eq!(t.len(), 1);
}

#[test]
fn remove_of_unknown_identifier_fails() {
    let mut t = FidTable::new();
    t.insert(4, dir(11)).unwrap();
    assert_eq!(t.remove(3), Err(Error::UnknownFid));
    assert_eq!(t.len(), 1);
}

#[test]
fn second_remove_fails() {
    let mut t = FidTable::new();
    t.insert(4, dir(11)).unwrap();
    assert!(t.remove(4).is_ok());
    assert_eq!(t.remove(4), Err(Error::UnknownFid));
    assert_eq!(t.remove(4), Err(Error::UnknownFid));
}

#[test]
fn identifier_can_be_bound_again_after_remove() {
    let mut t = FidTable::new();
    t.insert(4, dir(11)).unwrap();
    t.remove(4).unwrap();
    assert_eq!(t.insert(4, file(12)), Ok(()));
    assert_eq!(t.get(4), Ok(&file(12)));
}

#[test]
fn replace_hands_out_the_previous_resource() {
    let mut t = FidTable::new();
    t.insert(4, file(10)).unwrap();
    assert_eq!(t.replace(4, dir(11)), Ok(file(10)));
    assert_eq!(t.get(4), Ok(&dir(11)));
    assert_eq!(t.len(), 1);
}

#[test]
fn replace_of_unknown_identifier_is_refused() {
    let mut t = FidTable::new();
    assert_eq!(t.replace(4, dir(11)), Err((Error::UnknownFid, dir(11))));
    assert_eq!(t.len(), 0);
}

#[test]
fn drain_releases_one_descriptor_for_each_open_resource() {
    let mut t = FidTable::new();
    t.insert(3, file(10)).unwrap();
    t.insert(1, dir(11)).unwrap();
    t.insert(2, unopened(&[b"a", b"b"])).unwrap();
    t.insert(9, dir(12)).unwrap();
    t.insert(7, file(13)).unwrap();
    assert_eq!(t.drain(), vec![11, 10, 13, 12]);
    assert_eq!(t.len(), 0);
    assert_eq!(t.get(1), Err(Error::UnknownFid));
    assert_eq!(t.drain(), Vec::<i32>::new());
}

#[test]
fn drain_of_unopened_resources_releases_nothing() {
    let mut t = FidTable::new();
    t.insert(1, unopened(&[])).unwrap();
    t.insert(2, unopened(&[b"a"])).unwrap();
    assert_eq!(t.drain(), Vec::<i32>::new());
    assert_eq!(t.len(), 0);
}

#[test]
fn drain_counts_many_descriptors() {
    let mut t = FidTable::new();
    for i in 0..100u32 {
        let r = if i % 2 == 0 { file(i as i32) } else { dir(i as i32) };
        t.insert(1000 - i, r).unwrap();
    }
    let released = t.drain();
    assert_eq!(released.len(), 100);
    let expected: Vec<i32> = (0..100).rev().collect();
    assert_eq!(released, expected);
}

#[test]
fn resource_gives_descriptor_and_path() {
    assert_eq!(unopened(&[b"a"]).descriptor(), None);
    assert_eq!(file(3).descriptor(), Some(3));
    assert_eq!(dir(4).descriptor(), Some(4));
    assert_eq!(dir(4).path(), &path(&[b"d"]));
    assert_eq!(unopened(&[b"a", b"b"]).into_path(), path(&[b"a", b"b"]));
}
