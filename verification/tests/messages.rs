use p9::decode::{decode, read_fields, DecodeError};
use p9::message::{encode, encode_payload, opcode, FileKind, Message, Qid};
use p9::wire::Reader;
use p9::{Error, P9String};

fn name(bytes: &[u8]) -> P9String {
    P9String::new(bytes).unwrap()
}

fn samples() -> Vec<Message> {
    let qid = Qid { type_: 0x80, version: 7, path: 0x1122_3344_5566_7788 };
    let other = Qid { type_: 0, version: 0, path: 1 };
    vec![
        Message::Rlerror { ecode: 2 },
        Message::Tlopen { fid: 3, flags: 0x8000 },
        Message::Rlopen { qid, iounit: 4096 },
        Message::Treaddir { fid: 9, offset: u64::MAX, count: 8192 },
        Message::Rreaddir { data: vec![1, 2, 3, 0, 5] },
        Message::Rreaddir { data: Vec::new() },
        Message::Tattach { fid: 0, afid: u32::MAX, uname: name(b"user"), aname: name(b""), n_uname: 1000 },
        Message::Rattach { qid },
        Message::Twalk { fid: 1, newfid: 2, wnames: vec![name(b"a"), name(b"bc"), name(b"..")] },
        Message::Twalk { fid: 1, newfid: 1, wnames: Vec::new() },
        Message::Rwalk { wqids: vec![qid, other] },
        Message::Rwalk { wqids: Vec::new() },
        Message::Tlcreate { fid: 4, name: name(b"new file"), flags: 0x42, mode: 0o644, gid: 100 },
        Message::Rlcreate { qid: other, iounit: 0 },
        Message::Tread { fid: 5, offset: 1 << 40, count: 4096 },
        Message::Rread { data: vec![0, 1, 2, 255] },
        Message::Rread { data: Vec::new() },
        Message::Twrite { fid: 5, offset: 7, data: vec![9, 9, 9] },
        Message::Twrite { fid: 5, offset: 0, data: Vec::new() },
        Message::Rwrite { count: 3 },
        Message::Tclunk { fid: 77 },
        Message::Rclunk,
    ]
}

#[test]
fn every_message_round_trips() {
    for (i, m) in samples().into_iter().enumerate() {
        let tag = (i as u16) * 257;
        let bytes = encode(tag, &m).unwrap();
        assert_eq!(decode(&bytes), Ok((tag, m)));
    }
}

#[test]
fn size_field_counts_the_whole_message() {
    for m in samples() {
        let bytes = encode(1, &m).unwrap();
        let size = u32::from_le_bytes([bytes[0], bytes[1], bytes[2], bytes[3]]);
        assert_eq!(size as usize, bytes.len());
        assert_eq!(bytes[4], opcode(&m));
    }
}

#[test]
fn clunk_has_exact_bytes() {
    let bytes = encode(0x0102, &Message::Tclunk { fid: 7 }).unwrap();
    assert_eq!(bytes, vec![11, 0, 0, 0, 120, 2, 1, 7, 0, 0, 0]);
    let reply = encode(0x0102, &Message::Rclunk).unwrap();
    assert_eq!(reply, vec![7, 0, 0, 0, 121, 2, 1]);
}

#[test]
fn error_reply_has_exact_bytes() {
    let bytes = encode(5, &Message::Rlerror { ecode: 2 }).unwrap();
    assert_eq!(bytes, vec![11, 0, 0, 0, 7, 5, 0, 2, 0, 0, 0]);
}

#[test]
fn walk_has_exact_bytes() {
    let m = Message::Twalk { fid: 1, newfid: 2, wnames: vec![name(b"a"), name(b"bc")] };
    let bytes = encode(3, &m).unwrap();
    assert_eq!(
        bytes,
        vec![24, 0, 0, 0, 110, 3, 0, 1, 0, 0, 0, 2, 0, 0, 0, 2, 0, 1, 0, b'a', 2, 0, b'b', b'c']
    );
}

#[test]
fn attach_reply_has_exact_bytes() {
    let qid = Qid { type_: 0x80, version: 1, path: 2 };
    let bytes = encode(0, &Message::Rattach { qid }).unwrap();
    assert_eq!(
        bytes,
        vec![20, 0, 0, 0, 105, 0, 0, 0x80, 1, 0, 0, 0, 2, 0, 0, 0, 0, 0, 0, 0]
    );
}

#[test]
fn readdir_request_and_reply_have_exact_bytes() {
    let request = encode(1, &Message::Treaddir { fid: 2, offset: 3, count: 4 }).unwrap();
    assert_eq!(
        request,
        vec![23, 0, 0, 0, 40, 1, 0, 2, 0, 0, 0, 3, 0, 0, 0, 0, 0, 0, 0, 4, 0, 0, 0]
    );
    let reply = encode(1, &Message::Rreaddir { data: vec![9, 8] }).unwrap();
    assert_eq!(reply, vec![13, 0, 0, 0, 41, 1, 0, 2, 0, 0, 0, 9, 8]);
}

#[test]
fn open_request_and_reply_have_exact_bytes() {
    let request = encode(1, &Message::Tlopen { fid: 2, flags: 0x0102 }).unwrap();
    assert_eq!(request, vec![15, 0, 0, 0, 12, 1, 0, 2, 0, 0, 0, 2, 1, 0, 0]);
    let qid = Qid { type_: 0, version: 0, path: 0x0a };
    let reply = encode(1, &Message::Rlopen { qid, iounit: 5 }).unwrap();
    assert_eq!(
        reply,
        vec![24, 0, 0, 0, 13, 1, 0, 0, 0, 0, 0, 0, 0x0a, 0, 0, 0, 0, 0, 0, 0, 5, 0, 0, 0]
    );
}

#[test]
fn attach_request_has_exact_bytes() {
    let m = Message::Tattach { fid: 1, afid: 2, uname: name(b"u"), aname: name(b"/x"), n_uname: 3 };
    let bytes = encode(4, &m).unwrap();
    assert_eq!(
        bytes,
        vec![26, 0, 0, 0, 104, 4, 0, 1, 0, 0, 0, 2, 0, 0, 0, 1, 0, b'u', 2, 0, b'/', b'x', 3, 0, 0, 0]
    );
}

#[test]
fn header_cut_short_is_malformed() {
    assert_eq!(decode(&[]), Err(DecodeError::Malformed));
    assert_eq!(decode(&[7, 0, 0, 0, 121, 0]), Err(DecodeError::Malformed));
}

#[test]
fn oversized_declaration_is_malformed() {
    let mut bytes = encode(1, &Message::Tclunk { fid: 7 }).unwrap();
    bytes[0] = 12;
    assert_eq!(decode(&bytes), Err(DecodeError::Malformed));
}

#[test]
fn truncated_message_is_malformed() {
    let bytes = encode(1, &Message::Tclunk { fid: 7 }).unwrap();
    assert_eq!(decode(&bytes[..10]), Err(DecodeError::Malformed));
}

#[test]
fn undersized_declaration_is_malformed() {
    let mut bytes = encode(1, &Message::Tclunk { fid: 7 }).unwrap();
    bytes[0] = 10;
    assert_eq!(decode(&bytes), Err(DecodeError::Malformed));
}

#[test]
fn trailing_bytes_are_malformed() {
    let mut bytes = encode(1, &Message::Tclunk { fid: 7 }).unwrap();
    bytes.push(0);
    bytes[0] = 12;
    assert_eq!(decode(&bytes), Err(DecodeError::Malformed));
}

#[test]
fn missing_field_is_malformed() {
    let bytes = vec![9, 0, 0, 0, 120, 1, 0, 7, 0];
    assert_eq!(decode(&bytes), Err(DecodeError::Malformed));
}

#[test]
fn string_length_beyond_message_is_malformed() {
    let bytes = vec![17, 0, 0, 0, 110, 3, 0, 1, 0, 0, 0, 2, 0, 0, 0, 1, 0, 9, 0, b'a'];
    let mut framed = bytes;
    framed[0] = 20;
    assert_eq!(decode(&framed), Err(DecodeError::Malformed));
}

#[test]
fn name_count_beyond_message_is_malformed() {
    let bytes = vec![20, 0, 0, 0, 110, 3, 0, 1, 0, 0, 0, 2, 0, 0, 0, 2, 0, 1, 0, b'a'];
    assert_eq!(decode(&bytes), Err(DecodeError::Malformed));
}

#[test]
fn listing_count_beyond_message_is_malformed() {
    let bytes = vec![13, 0, 0, 0, 41, 1, 0, 3, 0, 0, 0, 9, 8];
    assert_eq!(decode(&bytes), Err(DecodeError::Malformed));
}

#[test]
fn unknown_kind_is_unimplemented_and_keeps_its_tag() {
    let bytes = vec![7, 0, 0, 0, 200, 9, 1];
    assert_eq!(decode(&bytes), Err(DecodeError::Unimplemented { tag: 0x0109 }));
    let with_payload = vec![9, 0, 0, 0, 26, 4, 0, 1, 2];
    assert_eq!(decode(&with_payload), Err(DecodeError::Unimplemented { tag: 4 }));
}

#[test]
fn too_many_names_have_no_bytes() {
    let wnames: Vec<P9String> = (0..65536).map(|_| name(b"a")).collect();
    let m = Message::Twalk { fid: 1, newfid: 2, wnames };
    assert_eq!(encode_payload(&m), None);
    assert_eq!(encode(1, &m), None);
}

#[test]
fn most_names_that_have_bytes() {
    let wnames: Vec<P9String> = (0..65535).map(|_| name(b"a")).collect();
    let m = Message::Twalk { fid: 1, newfid: 2, wnames };
    let bytes = encode(1, &m).unwrap();
    assert_eq!(bytes.len(), 7 + 4 + 4 + 2 + 3 * 65535);
    assert_eq!(decode(&bytes), Ok((1, m)));
}

#[test]
fn too_many_identities_have_no_bytes() {
    let qid = Qid { type_: 0, version: 0, path: 0 };
    let m = Message::Rwalk { wqids: vec![qid; 65536] };
    assert_eq!(encode(1, &m), None);
}

#[test]
fn fields_can_be_read_with_what_follows() {
    let payload = [7u8, 0, 0, 0, 0xee];
    let mut r = Reader::new(&payload);
    assert_eq!(read_fields(120, &mut r), Some(Message::Tclunk { fid: 7 }));
    assert_eq!(r.left(), 1);
    let mut again = Reader::new(&payload);
    assert_eq!(read_fields(99, &mut again), None);
}

#[test]
fn identity_depends_on_kind_device_and_inode_only() {
    let a = Qid::new(FileKind::Directory, 1, 5);
    assert_eq!(a, Qid { type_: 0x80, version: 0, path: 0x1_0000_0005 });
    assert_eq!(a, Qid::new(FileKind::Directory, 1, 5));
    assert_eq!(Qid::new(FileKind::File, 0, 42), Qid { type_: 0, version: 0, path: 42 });
    assert_eq!(Qid::new(FileKind::Symlink, 0, 42).type_, 0x02);
    assert_ne!(Qid::new(FileKind::File, 1, 42), Qid::new(FileKind::File, 2, 42));
    assert_ne!(Qid::new(FileKind::File, 1, 42), Qid::new(FileKind::File, 1, 43));
}

#[test]
fn read_and_write_have_exact_bytes() {
    let read = encode(1, &Message::Tread { fid: 2, offset: 3, count: 4 }).unwrap();
    assert_eq!(
        read,
        vec![23, 0, 0, 0, 116, 1, 0, 2, 0, 0, 0, 3, 0, 0, 0, 0, 0, 0, 0, 4, 0, 0, 0]
    );
    let data = encode(1, &Message::Rread { data: vec![7, 8, 9] }).unwrap();
    assert_eq!(data, vec![14, 0, 0, 0, 117, 1, 0, 3, 0, 0, 0, 7, 8, 9]);
    let write = encode(1, &Message::Twrite { fid: 2, offset: 3, data: vec![7, 8] }).unwrap();
    assert_eq!(
        write,
        vec![25, 0, 0, 0, 118, 1, 0, 2, 0, 0, 0, 3, 0, 0, 0, 0, 0, 0, 0, 2, 0, 0, 0, 7, 8]
    );
    let written = encode(1, &Message::Rwrite { count: 2 }).unwrap();
    assert_eq!(written, vec![11, 0, 0, 0, 119, 1, 0, 2, 0, 0, 0]);
}

#[test]
fn create_has_exact_bytes() {
    let m = Message::Tlcreate { fid: 1, name: name(b"ab"), flags: 2, mode: 3, gid: 4 };
    let bytes = encode(9, &m).unwrap();
    assert_eq!(
        bytes,
        vec![27, 0, 0, 0, 14, 9, 0, 1, 0, 0, 0, 2, 0, b'a', b'b', 2, 0, 0, 0, 3, 0, 0, 0, 4, 0, 0, 0]
    );
    let qid = Qid { type_: 0, version: 0, path: 6 };
    let reply = encode(9, &Message::Rlcreate { qid, iounit: 1 }).unwrap();
    assert_eq!(
        reply,
        vec![24, 0, 0, 0, 15, 9, 0, 0, 0, 0, 0, 0, 6, 0, 0, 0, 0, 0, 0, 0, 1, 0, 0, 0]
    );
}

#[test]
fn write_with_count_beyond_message_is_malformed() {
    let bytes = vec![25, 0, 0, 0, 118, 1, 0, 2, 0, 0, 0, 3, 0, 0, 0, 0, 0, 0, 0, 9, 0, 0, 0, 7, 8];
    assert_eq!(decode(&bytes), Err(DecodeError::Malformed));
}

#[test]
fn decoding_failures_as_errors() {
    let malformed = decode(&[1, 2, 3]).unwrap_err();
    assert_eq!(malformed.error(), Error::MalformedMessage);
    assert!(malformed.error().is_fatal());
    let unknown = decode(&[7, 0, 0, 0, 200, 9, 1]).unwrap_err();
    assert_eq!(unknown.error(), Error::Unimplemented);
    assert!(!unknown.error().is_fatal());
}
