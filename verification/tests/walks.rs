use p9::path::is_plain_name;
use p9::{Error, P9String, Path, Qid, WalkResult, Walker};

fn name(bytes: &[u8]) -> P9String {
    P9String::new(bytes).unwrap()
}

fn names(list: &[&[u8]]) -> Vec<P9String> {
    list.iter().map(|n| name(n)).collect()
}

fn path(list: &[&[u8]]) -> Path {
    let mut p = Path::root();
    for n in list {
        p = p.step(&name(n)).unwrap();
    }
    p
}

fn qid(n: u64) -> Qid {
    Qid { type_: 0x80, version: 0, path: n }
}

#[test]
fn plain_names() {
    assert!(is_plain_name(&name(b"a")));
    assert!(is_plain_name(&name(b"...")));
    assert!(is_plain_name(&name(b".a")));
    assert!(is_plain_name(&name(b"a b")));
    assert!(!is_plain_name(&name(b"")));
    assert!(!is_plain_name(&name(b".")));
    assert!(!is_plain_name(&name(b"..")));
    assert!(!is_plain_name(&name(b"a/b")));
    assert!(!is_plain_name(&name(b"/")));
    assert!(!is_plain_name(&name(b"a/")));
}

#[test]
fn steps_of_a_path() {
    let root = Path::root();
    assert_eq!(root.depth(), 0);
    let a = root.step(&name(b"a")).unwrap();
    assert_eq!(a.depth(), 1);
    assert_eq!(a.name(0), Some(&name(b"a")));
    assert_eq!(a.name(1), None);
    let same = a.step(&name(b".")).unwrap();
    assert!(same.same_as(&a));
    let ab = a.step(&name(b"b")).unwrap();
    assert_eq!(ab.depth(), 2);
    let up = ab.step(&name(b"..")).unwrap();
    assert!(up.same_as(&a));
    assert!(a.step(&name(b"..")).unwrap().same_as(&root));
}

#[test]
fn steps_that_are_not_allowed() {
    let root = Path::root();
    assert_eq!(root.step(&name(b"..")), None);
    assert_eq!(root.step(&name(b"")), None);
    assert_eq!(root.step(&name(b"a/b")), None);
    assert_eq!(root.step(&name(b"../etc")), None);
    assert_eq!(path(&[b"a"]).step(&name(b"/etc/passwd")), None);
}

#[test]
fn path_as_the_host_writes_it() {
    assert_eq!(Path::root().relative(), Vec::<u8>::new());
    assert_eq!(path(&[b"a"]).relative(), b"a".to_vec());
    assert_eq!(path(&[b"a", b"bc", b"d"]).relative(), b"a/bc/d".to_vec());
}

#[test]
fn path_copies_are_equal() {
    let p = path(&[b"a", b"b"]);
    assert!(p.duplicate().same_as(&p));
    assert_eq!(p.clone(), p);
    assert!(!p.same_as(&path(&[b"a"])));
    assert!(!p.same_as(&path(&[b"a", b"c"])));
}

#[test]
fn walk_without_names_clones_the_base() {
    let w = Walker::start(path(&[b"a", b"b"]), Vec::new());
    assert_eq!(w.target(), None);
    assert_eq!(
        w.finish(),
        Some(WalkResult::Complete { path: path(&[b"a", b"b"]), qids: Vec::new() })
    );
}

#[test]
fn complete_walk_reports_every_identity() {
    let w = Walker::start(path(&[b"a"]), names(&[b"b", b".", b"c", b".."]));
    assert_eq!(w.target(), Some(&path(&[b"a", b"b"])));
    let w = w.advance(Ok(qid(1)));
    assert_eq!(w.target(), Some(&path(&[b"a", b"b"])));
    let w = w.advance(Ok(qid(1)));
    assert_eq!(w.target(), Some(&path(&[b"a", b"b", b"c"])));
    let w = w.advance(Ok(qid(2)));
    assert_eq!(w.target(), Some(&path(&[b"a", b"b"])));
    let w = w.advance(Ok(qid(1)));
    assert_eq!(w.target(), None);
    assert_eq!(
        w.finish(),
        Some(WalkResult::Complete {
            path: path(&[b"a", b"b"]),
            qids: vec![qid(1), qid(1), qid(2), qid(1)],
        })
    );
}

#[test]
fn pending_walk_has_no_result() {
    let w = Walker::start(Path::root(), names(&[b"a", b"b"]));
    assert_eq!(w.finish(), None);
    let w = Walker::start(Path::root(), names(&[b"a", b"b"])).advance(Ok(qid(1)));
    assert_eq!(w.finish(), None);
}

#[test]
fn missing_name_keeps_earlier_progress() {
    let w = Walker::start(Path::root(), names(&[b"a", b"b", b"c", b"d"]));
    let w = w.advance(Ok(qid(1))).advance(Ok(qid(2))).advance(Err(Error::NotFound));
    assert_eq!(w.target(), None);
    assert_eq!(w.finish(), Some(WalkResult::Partial { qids: vec![qid(1), qid(2)] }));
}

#[test]
fn missing_first_name_reports_no_identity() {
    let w = Walker::start(Path::root(), names(&[b"a", b"b"])).advance(Err(Error::NotFound));
    assert_eq!(w.finish(), Some(WalkResult::Partial { qids: Vec::new() }));
}

#[test]
fn escape_reported_by_host_fails_closed() {
    let w = Walker::start(Path::root(), names(&[b"a", b"link", b"c"]));
    let w = w.advance(Ok(qid(1))).advance(Err(Error::PermissionDenied));
    assert_eq!(w.target(), None);
    assert_eq!(w.finish(), Some(WalkResult::Failed { error: Error::PermissionDenied }));
}

#[test]
fn escape_by_parent_of_root_fails_closed_without_the_host() {
    let w = Walker::start(Path::root(), names(&[b".."]));
    assert_eq!(w.target(), None);
    assert_eq!(w.finish(), Some(WalkResult::Failed { error: Error::PermissionDenied }));
}

#[test]
fn escape_after_valid_names_fails_closed() {
    let w = Walker::start(Path::root(), names(&[b"a", b"..", b"..", b"etc"]));
    assert_eq!(w.target(), Some(&path(&[b"a"])));
    let w = w.advance(Ok(qid(1)));
    assert_eq!(w.target(), Some(&Path::root()));
    let w = w.advance(Ok(qid(0)));
    assert_eq!(w.target(), None);
    assert_eq!(w.finish(), Some(WalkResult::Failed { error: Error::PermissionDenied }));
}

#[test]
fn name_with_separator_fails_closed() {
    let w = Walker::start(path(&[b"a"]), names(&[b"b", b"../../etc"]));
    let w = w.advance(Ok(qid(1)));
    assert_eq!(w.target(), None);
    assert_eq!(w.finish(), Some(WalkResult::Failed { error: Error::PermissionDenied }));
    let empty = Walker::start(path(&[b"a"]), names(&[b""]));
    assert_eq!(empty.finish(), Some(WalkResult::Failed { error: Error::PermissionDenied }));
}

#[test]
fn other_failure_fails_the_whole_walk() {
    let w = Walker::start(Path::root(), names(&[b"a", b"b"]));
    let w = w.advance(Ok(qid(1))).advance(Err(Error::NotADirectory));
    assert_eq!(w.finish(), Some(WalkResult::Failed { error: Error::NotADirectory }));
    let io = Walker::start(Path::root(), names(&[b"a"])).advance(Err(Error::IoError));
    assert_eq!(io.finish(), Some(WalkResult::Failed { error: Error::IoError }));
}

#[test]
fn finished_walk_ignores_further_answers() {
    let w = Walker::start(Path::root(), names(&[b"a", b"b"]));
    let w = w.advance(Err(Error::NotFound)).advance(Ok(qid(5))).advance(Err(Error::IoError));
    assert_eq!(w.finish(), Some(WalkResult::Partial { qids: Vec::new() }));
    let done = Walker::start(Path::root(), names(&[b"a"])).advance(Ok(qid(1))).advance(Ok(qid(2)));
    assert_eq!(
        done.finish(),
        Some(WalkResult::Complete { path: path(&[b"a"]), qids: vec![qid(1)] })
    );
}
