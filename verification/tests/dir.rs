use p9::read_dir::{entry_from_native, entry_size, put_entry, read_dir, read_entries, read_entry};
use p9::read_dir::{Batch, DirEntry, NativeEntry, OpenFailure};
use p9::wire::Reader;
use p9::{Error, P9String};

fn entry(ino: u64, offset: u64, type_: u8, name: &[u8]) -> DirEntry {
    DirEntry { ino, offset, type_, name: P9String::new(name).unwrap() }
}

#[test]
fn native_record_becomes_entry() {
    let record = NativeEntry { ino: 12, off: 34, type_: 4, name: b"abc\0\0\0\0\0" };
    assert_eq!(entry_from_native(&record), Ok(entry(12, 34, 4, b"abc")));
}

#[test]
fn native_name_stops_at_first_terminator() {
    let record = NativeEntry { ino: 1, off: 2, type_: 8, name: b"..\0\0\0\0" };
    assert_eq!(entry_from_native(&record), Ok(entry(1, 2, 8, b"..")));
    let interior = NativeEntry { ino: 1, off: 2, type_: 8, name: b"interior\0nul bytes\0\0" };
    assert_eq!(entry_from_native(&interior), Ok(entry(1, 2, 8, b"interior")));
    let empty = NativeEntry { ino: 1, off: 2, type_: 8, name: b"\0\0" };
    assert_eq!(entry_from_native(&empty), Ok(entry(1, 2, 8, b"")));
}

#[test]
fn native_name_without_terminator_is_an_error() {
    let record = NativeEntry { ino: 1, off: 2, type_: 8, name: b"no nul bytes in string" };
    assert_eq!(entry_from_native(&record), Err(Error::IoError));
    let nothing = NativeEntry { ino: 1, off: 2, type_: 8, name: b"" };
    assert_eq!(entry_from_native(&nothing), Err(Error::IoError));
}

#[test]
fn native_name_too_long_is_an_error() {
    let mut field = vec![b'a'; 65536];
    field.push(0);
    let record = NativeEntry { ino: 1, off: 2, type_: 8, name: &field };
    assert_eq!(entry_from_native(&record), Err(Error::NameTooLong));
    let mut fits = vec![b'a'; 65535];
    fits.push(0);
    let longest = NativeEntry { ino: 1, off: 2, type_: 8, name: &fits };
    assert_eq!(entry_from_native(&longest).unwrap().name.len(), 65535);
}

#[test]
fn native_offset_is_reinterpreted() {
    let record = NativeEntry { ino: 1, off: -1, type_: 8, name: b"x\0" };
    assert_eq!(entry_from_native(&record).unwrap().offset, u64::MAX);
    let least = NativeEntry { ino: 1, off: i64::MIN, type_: 8, name: b"x\0" };
    assert_eq!(entry_from_native(&least).unwrap().offset, 1u64 << 63);
    let most = NativeEntry { ino: 1, off: i64::MAX, type_: 8, name: b"x\0" };
    assert_eq!(entry_from_native(&most).unwrap().offset, i64::MAX as u64);
}

#[test]
fn entry_has_exact_bytes() {
    let e = entry(0x0102, 3, 4, b"ab");
    let mut out = Vec::new();
    put_entry(&mut out, &e);
    assert_eq!(
        out,
        vec![2, 1, 0, 0, 0, 0, 0, 0, 3, 0, 0, 0, 0, 0, 0, 0, 4, 2, 0, b'a', b'b']
    );
    assert_eq!(entry_size(&e), 21);
    assert_eq!(entry_size(&entry(0, 0, 0, b"")), 19);
}

#[test]
fn entry_round_trip() {
    let e = entry(u64::MAX, 0x1122_3344_5566_7788, 10, b"a name with spaces");
    let mut out = Vec::new();
    put_entry(&mut out, &e);
    out.push(0x55);
    let mut r = Reader::new(&out);
    assert_eq!(read_entry(&mut r), Some(e));
    assert_eq!(r.left(), 1);
}

#[test]
fn entry_cut_short_is_refused() {
    let e = entry(1, 2, 3, b"name");
    let mut out = Vec::new();
    put_entry(&mut out, &e);
    for cut in 0..out.len() {
        let mut r = Reader::new(&out[..cut]);
        assert_eq!(read_entry(&mut r), None);
    }
}

#[test]
fn reader_opens_when_both_steps_went_well() {
    let reader = read_dir(5, true, 42).unwrap();
    assert_eq!(reader.descriptor(), 5);
    assert_eq!(reader.offset(), 42);
    assert!(!reader.is_finished());
    let zero = read_dir(0, true, 0).unwrap();
    assert_eq!(zero.descriptor(), 0);
}

#[test]
fn failed_duplication_leaves_nothing_to_close() {
    assert_eq!(
        read_dir(-1, false, 0),
        Err(OpenFailure { error: Error::IoError, close: None })
    );
    assert_eq!(
        read_dir(-1, true, 0),
        Err(OpenFailure { error: Error::IoError, close: None })
    );
}

#[test]
fn failed_stream_open_names_the_duplicate_for_closing() {
    assert_eq!(
        read_dir(5, false, 0),
        Err(OpenFailure { error: Error::IoError, close: Some(5) })
    );
}

#[test]
fn reader_gives_entries_until_the_end() {
    let mut reader = read_dir(5, true, 0).unwrap();
    let first = NativeEntry { ino: 1, off: 10, type_: 4, name: b".\0\0\0" };
    let second = NativeEntry { ino: 2, off: 20, type_: 8, name: b"file\0" };
    assert_eq!(reader.next(Some(first)), Some(Ok(entry(1, 10, 4, b"."))));
    assert_eq!(reader.offset(), 10);
    assert_eq!(reader.next(Some(second)), Some(Ok(entry(2, 20, 8, b"file"))));
    assert_eq!(reader.offset(), 20);
    assert!(!reader.is_finished());
    assert_eq!(reader.next(None), None);
    assert!(reader.is_finished());
    assert_eq!(reader.offset(), 20);
}

#[test]
fn reader_does_not_restart() {
    let mut reader = read_dir(5, true, 7).unwrap();
    assert_eq!(reader.next(None), None);
    let late = NativeEntry { ino: 2, off: 20, type_: 8, name: b"file\0" };
    assert_eq!(reader.next(Some(late)), None);
    assert_eq!(reader.offset(), 7);
    assert!(reader.is_finished());
}

#[test]
fn reader_reports_invalid_record_and_goes_on() {
    let mut reader = read_dir(5, true, 7).unwrap();
    let bad = NativeEntry { ino: 1, off: 10, type_: 4, name: b"abcd" };
    let good = NativeEntry { ino: 2, off: 20, type_: 8, name: b"file\0" };
    assert_eq!(reader.next(Some(bad)), Some(Err(Error::IoError)));
    assert_eq!(reader.offset(), 7);
    assert!(!reader.is_finished());
    assert_eq!(reader.next(Some(good)), Some(Ok(entry(2, 20, 8, b"file"))));
}

#[test]
fn abandoned_reader_still_names_its_descriptor() {
    let mut reader = read_dir(9, true, 0).unwrap();
    let first = NativeEntry { ino: 1, off: 10, type_: 4, name: b"a\0" };
    assert!(reader.next(Some(first)).is_some());
    assert!(!reader.is_finished());
    assert_eq!(reader.descriptor(), 9);
}

#[test]
fn batch_takes_entries_while_they_fit() {
    let a = entry(1, 10, 4, b"ab");
    let b = entry(2, 20, 8, b"cd");
    let c = entry(3, 30, 8, b"ef");
    let batch = Batch::new(45);
    assert_eq!(batch.resume(), None);
    let (batch, first) = batch.push(&a);
    let (batch, second) = batch.push(&b);
    assert!(first && second);
    assert_eq!(batch.len(), 42);
    assert!(!batch.is_full());
    let (batch, third) = batch.push(&c);
    assert!(!third);
    assert!(batch.is_full());
    assert_eq!(batch.len(), 42);
    assert_eq!(batch.resume(), Some(20));
    let mut expected = Vec::new();
    put_entry(&mut expected, &a);
    put_entry(&mut expected, &b);
    assert_eq!(batch.finish(), expected);
}

#[test]
fn batch_that_refused_stays_closed() {
    let big = entry(1, 10, 4, b"a long name that does not fit");
    let small = entry(2, 20, 8, b"");
    let (batch, accepted) = Batch::new(20).push(&big);
    assert!(!accepted);
    let (batch, later) = batch.push(&small);
    assert!(!later);
    assert_eq!(batch.len(), 0);
    assert_eq!(batch.resume(), None);
    assert_eq!(batch.finish(), Vec::<u8>::new());
}

#[test]
fn batch_takes_entry_that_fits_exactly() {
    let e = entry(1, 10, 4, b"ab");
    let (batch, accepted) = Batch::new(21).push(&e);
    assert!(accepted);
    assert_eq!(batch.len(), 21);
    let (batch, refused) = Batch::new(20).push(&e);
    assert!(!refused);
    assert_eq!(batch.len(), 0);
}

#[test]
fn batch_without_room_takes_nothing() {
    let (batch, accepted) = Batch::new(0).push(&entry(1, 1, 1, b""));
    assert!(!accepted);
    assert!(batch.is_full());
}

#[test]
fn listing_round_trip() {
    let entries = vec![entry(1, 10, 4, b"."), entry(2, 20, 4, b".."), entry(3, 30, 8, b"file name")];
    let mut batch = Batch::new(1000);
    for e in &entries {
        let (next, accepted) = batch.push(e);
        assert!(accepted);
        batch = next;
    }
    assert_eq!(read_entries(&batch.finish()), Some(entries));
    assert_eq!(read_entries(&[]), Some(Vec::new()));
}

#[test]
fn listing_that_ends_inside_an_entry_is_refused() {
    let mut bytes = Vec::new();
    put_entry(&mut bytes, &entry(1, 10, 4, b"a"));
    put_entry(&mut bytes, &entry(2, 20, 4, b"b"));
    assert_eq!(read_entries(&bytes[..bytes.len() - 1]), None);
    assert_eq!(read_entries(&bytes[..25]), None);
    bytes.push(0);
    assert_eq!(read_entries(&bytes), None);
}
