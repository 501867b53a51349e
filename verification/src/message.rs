//! The messages of the protocol and their bytes.
//!
//! A message on the wire is a header of seven bytes (the size of the whole
//! message, the kind of message, and the tag that pairs a reply with its
//! request) followed by the fields of its kind. All integers are
//! little-endian.

use crate::name::{names_view, valid_string, P9String};
use crate::wire::{put_bytes, put_string, put_u16, put_u32, put_u64, put_u8, string_bytes};
use crate::wire::{u16_le, u32_le, u64_le};
use vstd::prelude::*;

verus! {

/// Number of bytes of the header of a message.
pub const HEADER_LEN: usize = 7;

/// Number of bytes of a `Qid` on the wire.
pub const QID_LEN: usize = 13;

/// Kind of the reply to a request that failed.
pub const RLERROR: u8 = 7;

/// Kind of a request to open.
pub const TLOPEN: u8 = 12;

/// Kind of the reply to a request to open.
pub const RLOPEN: u8 = 13;

/// Kind of a request to create a file.
pub const TLCREATE: u8 = 14;

/// Kind of the reply to a request to create a file.
pub const RLCREATE: u8 = 15;

/// Kind of a request to list a directory.
pub const TREADDIR: u8 = 40;

/// Kind of the reply to a request to list a directory.
pub const RREADDIR: u8 = 41;

/// Kind of a request to attach.
pub const TATTACH: u8 = 104;

/// Kind of the reply to a request to attach.
pub const RATTACH: u8 = 105;

/// Kind of a request to walk.
pub const TWALK: u8 = 110;

/// Kind of the reply to a request to walk.
pub const RWALK: u8 = 111;

/// Kind of a request to read.
pub const TREAD: u8 = 116;

/// Kind of the reply to a request to read.
pub const RREAD: u8 = 117;

/// Kind of a request to write.
pub const TWRITE: u8 = 118;

/// Kind of the reply to a request to write.
pub const RWRITE: u8 = 119;

/// Kind of a request to release an identifier.
pub const TCLUNK: u8 = 120;

/// Kind of the reply to a request to release an identifier.
pub const RCLUNK: u8 = 121;

/// The identity of a filesystem object: its kind, a version, and a number
/// that is the same whenever the same object is meant.
#[derive(Clone, Copy, Debug, PartialEq, Eq, Structural)]
pub struct Qid {
    pub type_: u8,
    pub version: u32,
    pub path: u64,
}

/// The kinds of object that an identity tells apart.
#[derive(Clone, Copy, Debug, PartialEq, Eq, Structural)]
pub enum FileKind {
    Directory,
    Symlink,
    File,
}

/// The kind byte of the identity of a directory.
pub const QID_DIRECTORY: u8 = 0x80;

/// The kind byte of the identity of a symbolic link.
pub const QID_SYMLINK: u8 = 0x02;

/// The kind byte of the identity of any other object.
pub const QID_FILE: u8 = 0x00;

/// The identity of the object of kind `kind` with the inode number `inode`
/// on the device `device`. It depends on nothing else, so that the same
/// object has the same identity whenever it is met.
pub open spec fn qid_of(kind: FileKind, device: u64, inode: u64) -> Qid {
    Qid {
        type_: match kind {
            FileKind::Directory => QID_DIRECTORY,
            FileKind::Symlink => QID_SYMLINK,
            FileKind::File => QID_FILE,
        },
        version: 0,
        path: inode ^ (device % 0x1_0000_0000 * 0x1_0000_0000) as u64,
    }
}

impl Qid {
    /// The identity of the object of kind `kind` with the inode number
    /// `inode` on the device `device`.
    pub fn new(kind: FileKind, device: u64, inode: u64) -> (qid: Qid)
        ensures
            qid == qid_of(kind, device, inode),
    {
        let type_ = match kind {
            FileKind::Directory => QID_DIRECTORY,
            FileKind::Symlink => QID_SYMLINK,
            FileKind::File => QID_FILE,
        };
        let high: u64 = device % 0x1_0000_0000 * 0x1_0000_0000;
        Qid { type_, version: 0, path: inode ^ high }
    }
}

/// One message, without its tag.
#[derive(Clone, Debug, PartialEq, Eq)]
pub enum Message {
    /// Reply to a request that failed: the number of the failure.
    Rlerror { ecode: u32 },
    /// Open the object bound to `fid`.
    Tlopen { fid: u32, flags: u32 },
    Rlopen { qid: Qid, iounit: u32 },
    /// Create the file `name` in the directory bound to `fid`, open it, and
    /// bind `fid` to it.
    Tlcreate { fid: u32, name: P9String, flags: u32, mode: u32, gid: u32 },
    Rlcreate { qid: Qid, iounit: u32 },
    /// List the directory opened on `fid`, from `offset`, in at most `count`
    /// bytes.
    Treaddir { fid: u32, offset: u64, count: u32 },
    Rreaddir { data: Vec<u8> },
    /// Bind `fid` to the root of the exported tree.
    Tattach { fid: u32, afid: u32, uname: P9String, aname: P9String, n_uname: u32 },
    Rattach { qid: Qid },
    /// Resolve `wnames` one after the other, starting at `fid`, and bind
    /// `newfid` to the result.
    Twalk { fid: u32, newfid: u32, wnames: Vec<P9String> },
    Rwalk { wqids: Vec<Qid> },
    /// Read at most `count` bytes at `offset` from the file opened on `fid`.
    Tread { fid: u32, offset: u64, count: u32 },
    Rread { data: Vec<u8> },
    /// Write `data` at `offset` to the file opened on `fid`.
    Twrite { fid: u32, offset: u64, data: Vec<u8> },
    Rwrite { count: u32 },
    /// Release `fid`.
    Tclunk { fid: u32 },
    Rclunk,
}

/// What a `Message` stands for.
pub enum MessageView {
    Rlerror { ecode: u32 },
    Tlopen { fid: u32, flags: u32 },
    Rlopen { qid: Qid, iounit: u32 },
    Tlcreate { fid: u32, name: Seq<u8>, flags: u32, mode: u32, gid: u32 },
    Rlcreate { qid: Qid, iounit: u32 },
    Treaddir { fid: u32, offset: u64, count: u32 },
    Rreaddir { data: Seq<u8> },
    Tattach { fid: u32, afid: u32, uname: Seq<u8>, aname: Seq<u8>, n_uname: u32 },
    Rattach { qid: Qid },
    Twalk { fid: u32, newfid: u32, wnames: Seq<Seq<u8>> },
    Rwalk { wqids: Seq<Qid> },
    Tread { fid: u32, offset: u64, count: u32 },
    Rread { data: Seq<u8> },
    Twrite { fid: u32, offset: u64, data: Seq<u8> },
    Rwrite { count: u32 },
    Tclunk { fid: u32 },
    Rclunk,
}

impl View for Message {
    type V = MessageView;

    open spec fn view(&self) -> MessageView {
        match *self {
            Message::Rlerror { ecode } => MessageView::Rlerror { ecode },
            Message::Tlopen { fid, flags } => MessageView::Tlopen { fid, flags },
            Message::Rlopen { qid, iounit } => MessageView::Rlopen { qid, iounit },
            Message::Tlcreate { fid, name, flags, mode, gid } => MessageView::Tlcreate {
                fid,
                name: name@,
                flags,
                mode,
                gid,
            },
            Message::Rlcreate { qid, iounit } => MessageView::Rlcreate { qid, iounit },
            Message::Treaddir { fid, offset, count } => MessageView::Treaddir {
                fid,
                offset,
                count,
            },
            Message::Rreaddir { data } => MessageView::Rreaddir { data: data@ },
            Message::Tattach { fid, afid, uname, aname, n_uname } => MessageView::Tattach {
                fid,
                afid,
                uname: uname@,
                aname: aname@,
                n_uname,
            },
            Message::Rattach { qid } => MessageView::Rattach { qid },
            Message::Twalk { fid, newfid, wnames } => MessageView::Twalk {
                fid,
                newfid,
                wnames: names_view(wnames@),
            },
            Message::Rwalk { wqids } => MessageView::Rwalk { wqids: wqids@ },
            Message::Tread { fid, offset, count } => MessageView::Tread { fid, offset, count },
            Message::Rread { data } => MessageView::Rread { data: data@ },
            Message::Twrite { fid, offset, data } => MessageView::Twrite {
                fid,
                offset,
                data: data@,
            },
            Message::Rwrite { count } => MessageView::Rwrite { count },
            Message::Tclunk { fid } => MessageView::Tclunk { fid },
            Message::Rclunk => MessageView::Rclunk,
        }
    }
}

/// The number that tells the kind of a message.
pub open spec fn opcode_of(m: MessageView) -> u8 {
    match m {
        MessageView::Rlerror { .. } => RLERROR,
        MessageView::Tlopen { .. } => TLOPEN,
        MessageView::Rlopen { .. } => RLOPEN,
        MessageView::Tlcreate { .. } => TLCREATE,
        MessageView::Rlcreate { .. } => RLCREATE,
        MessageView::Treaddir { .. } => TREADDIR,
        MessageView::Rreaddir { .. } => RREADDIR,
        MessageView::Tattach { .. } => TATTACH,
        MessageView::Rattach { .. } => RATTACH,
        MessageView::Twalk { .. } => TWALK,
        MessageView::Rwalk { .. } => RWALK,
        MessageView::Tread { .. } => TREAD,
        MessageView::Rread { .. } => RREAD,
        MessageView::Twrite { .. } => TWRITE,
        MessageView::Rwrite { .. } => RWRITE,
        MessageView::Tclunk { .. } => TCLUNK,
        MessageView::Rclunk => RCLUNK,
    }
}

/// Whether `opcode` tells a kind of request that this library knows.
pub open spec fn request_opcode(opcode: u8) -> bool {
    opcode == TLOPEN || opcode == TLCREATE || opcode == TREADDIR || opcode == TATTACH || opcode
        == TWALK || opcode == TREAD || opcode == TWRITE || opcode == TCLUNK
}

/// Whether `opcode` tells a kind of reply that this library knows.
pub open spec fn reply_opcode(opcode: u8) -> bool {
    opcode == RLERROR || opcode == RLOPEN || opcode == RLCREATE || opcode == RREADDIR || opcode
        == RATTACH || opcode == RWALK || opcode == RREAD || opcode == RWRITE || opcode == RCLUNK
}

/// Whether `opcode` tells a kind of message that this library knows.
pub open spec fn known_opcode(opcode: u8) -> bool {
    request_opcode(opcode) || reply_opcode(opcode)
}

/// The bytes of a `Qid`: kind, version, number.
pub open spec fn qid_bytes(q: Qid) -> Seq<u8> {
    seq![q.type_] + (u32_le(q.version) + u64_le(q.path))
}

/// The bytes of a list of strings, one after the other.
pub open spec fn names_bytes(names: Seq<Seq<u8>>) -> Seq<u8>
    decreases names.len(),
{
    if names.len() == 0 {
        Seq::empty()
    } else {
        string_bytes(names[0]) + names_bytes(names.skip(1))
    }
}

/// The bytes of a list of `Qid`s, one after the other.
pub open spec fn qids_bytes(qids: Seq<Qid>) -> Seq<u8>
    decreases qids.len(),
{
    if qids.len() == 0 {
        Seq::empty()
    } else {
        qid_bytes(qids[0]) + qids_bytes(qids.skip(1))
    }
}

/// The bytes of a run of data on the wire: the number of its bytes as a
/// thirty-two-bit integer, then the bytes.
pub open spec fn data_bytes(data: Seq<u8>) -> Seq<u8> {
    u32_le(data.len() as u32) + data
}

/// The bytes of the fields of a message, without the header.
pub open spec fn payload_bytes(m: MessageView) -> Seq<u8> {
    match m {
        MessageView::Rlerror { ecode } => u32_le(ecode),
        MessageView::Tlopen { fid, flags } => u32_le(fid) + u32_le(flags),
        MessageView::Rlopen { qid, iounit } => qid_bytes(qid) + u32_le(iounit),
        MessageView::Tlcreate { fid, name, flags, mode, gid } => u32_le(fid) + (string_bytes(
            name,
        ) + (u32_le(flags) + (u32_le(mode) + u32_le(gid)))),
        MessageView::Rlcreate { qid, iounit } => qid_bytes(qid) + u32_le(iounit),
        MessageView::Treaddir { fid, offset, count } => u32_le(fid) + (u64_le(offset) + u32_le(
            count,
        )),
        MessageView::Rreaddir { data } => data_bytes(data),
        MessageView::Tattach { fid, afid, uname, aname, n_uname } => u32_le(fid) + (u32_le(afid)
            + (string_bytes(uname) + (string_bytes(aname) + u32_le(n_uname)))),
        MessageView::Rattach { qid } => qid_bytes(qid),
        MessageView::Twalk { fid, newfid, wnames } => u32_le(fid) + (u32_le(newfid) + (u16_le(
            wnames.len() as u16,
        ) + names_bytes(wnames))),
        MessageView::Rwalk { wqids } => u16_le(wqids.len() as u16) + qids_bytes(wqids),
        MessageView::Tread { fid, offset, count } => u32_le(fid) + (u64_le(offset) + u32_le(count)),
        MessageView::Rread { data } => data_bytes(data),
        MessageView::Twrite { fid, offset, data } => u32_le(fid) + (u64_le(offset) + data_bytes(
            data,
        )),
        MessageView::Rwrite { count } => u32_le(count),
        MessageView::Tclunk { fid } => u32_le(fid),
        MessageView::Rclunk => Seq::empty(),
    }
}

/// The strings of the message are strings of the wire format.
pub open spec fn strings_valid(m: MessageView) -> bool {
    match m {
        MessageView::Tattach { uname, aname, .. } => valid_string(uname) && valid_string(aname),
        MessageView::Twalk { wnames, .. } => forall|i: int|
            0 <= i < wnames.len() ==> valid_string(#[trigger] wnames[i]),
        MessageView::Tlcreate { name, .. } => valid_string(name),
        _ => true,
    }
}

/// The lists and the data of the message are no longer than their count
/// fields can tell.
pub open spec fn counts_fit(m: MessageView) -> bool {
    match m {
        MessageView::Rreaddir { data } => data.len() <= u32::MAX,
        MessageView::Rread { data } => data.len() <= u32::MAX,
        MessageView::Twrite { data, .. } => data.len() <= u32::MAX,
        MessageView::Twalk { wnames, .. } => wnames.len() <= u16::MAX,
        MessageView::Rwalk { wqids } => wqids.len() <= u16::MAX,
        _ => true,
    }
}

/// What a message must meet to have bytes on the wire: its strings are
/// strings of the wire format, its lists fit their count fields, and the
/// whole message is no longer than its size field can tell.
pub open spec fn encodable(m: MessageView) -> bool {
    &&& strings_valid(m)
    &&& counts_fit(m)
    &&& HEADER_LEN + payload_bytes(m).len() <= u32::MAX
}

/// The bytes of a whole message: the size of the message, its kind, its
/// tag, its fields.
pub open spec fn frame_bytes(tag: u16, m: MessageView) -> Seq<u8> {
    u32_le((HEADER_LEN + payload_bytes(m).len()) as u32) + (seq![opcode_of(m)] + (u16_le(tag)
        + payload_bytes(m)))
}

/// Appends the bytes of `q` to `out`.
pub fn put_qid(out: &mut Vec<u8>, q: Qid)
    ensures
        final(out)@ == old(out)@ + qid_bytes(q),
{
    put_u8(out, q.type_);
    put_u32(out, q.version);
    put_u64(out, q.path);
    assert(out@ =~= old(out)@ + qid_bytes(q));
}

/// The bytes of a list of strings that is one string longer are those of
/// the list, then those of the string.
pub proof fn lemma_names_bytes_push(names: Seq<Seq<u8>>, last: Seq<u8>)
    ensures
        names_bytes(names.push(last)) == names_bytes(names) + string_bytes(last),
    decreases names.len(),
{
    let longer = names.push(last);
    if names.len() == 0 {
        assert(longer.skip(1) =~= Seq::<Seq<u8>>::empty());
        assert(names_bytes(longer) =~= string_bytes(last) + names_bytes(longer.skip(1)));
        assert(names_bytes(longer) =~= names_bytes(names) + string_bytes(last));
    } else {
        assert(longer.skip(1) =~= names.skip(1).push(last));
        lemma_names_bytes_push(names.skip(1), last);
        assert(names_bytes(longer) =~= names_bytes(names) + string_bytes(last));
    }
}

/// The bytes of a list of `Qid`s that is one longer are those of the list,
/// then those of the last one.
pub proof fn lemma_qids_bytes_push(qids: Seq<Qid>, last: Qid)
    ensures
        qids_bytes(qids.push(last)) == qids_bytes(qids) + qid_bytes(last),
    decreases qids.len(),
{
    let longer = qids.push(last);
    if qids.len() == 0 {
        assert(longer.skip(1) =~= Seq::<Qid>::empty());
        assert(qids_bytes(longer) =~= qid_bytes(last) + qids_bytes(longer.skip(1)));
        assert(qids_bytes(longer) =~= qids_bytes(qids) + qid_bytes(last));
    } else {
        assert(longer.skip(1) =~= qids.skip(1).push(last));
        lemma_qids_bytes_push(qids.skip(1), last);
        assert(qids_bytes(longer) =~= qids_bytes(qids) + qid_bytes(last));
    }
}

/// A `Qid` takes thirteen bytes, and a list of them thirteen bytes each.
pub proof fn lemma_qids_len(qids: Seq<Qid>)
    ensures
        qids_bytes(qids).len() == QID_LEN * qids.len(),
    decreases qids.len(),
{
    if qids.len() > 0 {
        lemma_qids_len(qids.skip(1));
    }
}

/// Appends the bytes of the strings of `names` to `out`, in order.
pub fn put_names(out: &mut Vec<u8>, names: &Vec<P9String>)
    ensures
        final(out)@ == old(out)@ + names_bytes(names_view(names@)),
        forall|i: int| 0 <= i < names@.len() ==> valid_string(#[trigger] names_view(names@)[i]),
{
    let ghost all = names_view(names@);
    let mut i: usize = 0;
    assert(all.take(0) =~= Seq::<Seq<u8>>::empty());
    while i < names.len()
        invariant
            i <= names.len(),
            all == names_view(names@),
            out@ == old(out)@ + names_bytes(all.take(i as int)),
            forall|j: int| 0 <= j < i ==> valid_string(#[trigger] all[j]),
        decreases names.len() - i,
    {
        put_string(out, &names[i]);
        proof {
            lemma_names_bytes_push(all.take(i as int), all[i as int]);
            assert(all.take(i as int).push(all[i as int]) =~= all.take(i + 1));
            assert(out@ =~= old(out)@ + names_bytes(all.take(i + 1)));
        }
        i += 1;
    }
    assert(all.take(names.len() as int) =~= all);
}

/// Appends the bytes of the `Qid`s of `qids` to `out`, in order.
pub fn put_qids(out: &mut Vec<u8>, qids: &Vec<Qid>)
    ensures
        final(out)@ == old(out)@ + qids_bytes(qids@),
{
    let mut i: usize = 0;
    assert(qids@.take(0) =~= Seq::<Qid>::empty());
    while i < qids.len()
        invariant
            i <= qids.len(),
            out@ == old(out)@ + qids_bytes(qids@.take(i as int)),
        decreases qids.len() - i,
    {
        put_qid(out, qids[i]);
        proof {
            lemma_qids_bytes_push(qids@.take(i as int), qids@[i as int]);
            assert(qids@.take(i as int).push(qids@[i as int]) =~= qids@.take(i + 1));
            assert(out@ =~= old(out)@ + qids_bytes(qids@.take(i + 1)));
        }
        i += 1;
    }
    assert(qids@.take(qids.len() as int) =~= qids@);
}

/// The number that tells the kind of `m`.
pub fn opcode(m: &Message) -> (op: u8)
    ensures
        op == opcode_of(m@),
{
    match m {
        Message::Rlerror { .. } => RLERROR,
        Message::Tlopen { .. } => TLOPEN,
        Message::Rlopen { .. } => RLOPEN,
        Message::Tlcreate { .. } => TLCREATE,
        Message::Rlcreate { .. } => RLCREATE,
        Message::Treaddir { .. } => TREADDIR,
        Message::Rreaddir { .. } => RREADDIR,
        Message::Tattach { .. } => TATTACH,
        Message::Rattach { .. } => RATTACH,
        Message::Twalk { .. } => TWALK,
        Message::Rwalk { .. } => RWALK,
        Message::Tread { .. } => TREAD,
        Message::Rread { .. } => RREAD,
        Message::Twrite { .. } => TWRITE,
        Message::Rwrite { .. } => RWRITE,
        Message::Tclunk { .. } => TCLUNK,
        Message::Rclunk => RCLUNK,
    }
}

/// The bytes of the fields of `m`, where its lists and its data are no
/// longer than their count fields can tell.
pub fn encode_payload(m: &Message) -> (result: Option<Vec<u8>>)
    ensures
        result is Some <==> counts_fit(m@),
        result matches Some(bytes) ==> bytes@ == payload_bytes(m@) && strings_valid(m@),
{
    let mut out: Vec<u8> = Vec::new();
    match m {
        Message::Rlerror { ecode } => {
            put_u32(&mut out, *ecode);
        },
        Message::Tlopen { fid, flags } => {
            put_u32(&mut out, *fid);
            put_u32(&mut out, *flags);
        },
        Message::Rlopen { qid, iounit } => {
            put_qid(&mut out, *qid);
            put_u32(&mut out, *iounit);
        },
        Message::Treaddir { fid, offset, count } => {
            put_u32(&mut out, *fid);
            put_u64(&mut out, *offset);
            put_u32(&mut out, *count);
        },
        Message::Tlcreate { fid, name, flags, mode, gid } => {
            put_u32(&mut out, *fid);
            put_string(&mut out, name);
            put_u32(&mut out, *flags);
            put_u32(&mut out, *mode);
            put_u32(&mut out, *gid);
        },
        Message::Rlcreate { qid, iounit } => {
            put_qid(&mut out, *qid);
            put_u32(&mut out, *iounit);
        },
        Message::Rreaddir { data } => {
            if data.len() > 0xffff_ffff {
                return None;
            }
            put_u32(&mut out, data.len() as u32);
            put_bytes(&mut out, data.as_slice());
        },
        Message::Tread { fid, offset, count } => {
            put_u32(&mut out, *fid);
            put_u64(&mut out, *offset);
            put_u32(&mut out, *count);
        },
        Message::Rread { data } => {
            if data.len() > 0xffff_ffff {
                return None;
            }
            put_u32(&mut out, data.len() as u32);
            put_bytes(&mut out, data.as_slice());
        },
        Message::Twrite { fid, offset, data } => {
            if data.len() > 0xffff_ffff {
                return None;
            }
            put_u32(&mut out, *fid);
            put_u64(&mut out, *offset);
            put_u32(&mut out, data.len() as u32);
            put_bytes(&mut out, data.as_slice());
        },
        Message::Rwrite { count } => {
            put_u32(&mut out, *count);
        },
        Message::Tattach { fid, afid, uname, aname, n_uname } => {
            put_u32(&mut out, *fid);
            put_u32(&mut out, *afid);
            put_string(&mut out, uname);
            put_string(&mut out, aname);
            put_u32(&mut out, *n_uname);
        },
        Message::Rattach { qid } => {
            put_qid(&mut out, *qid);
        },
        Message::Twalk { fid, newfid, wnames } => {
            if wnames.len() > 0xffff {
                return None;
            }
            put_u32(&mut out, *fid);
            put_u32(&mut out, *newfid);
            put_u16(&mut out, wnames.len() as u16);
            put_names(&mut out, wnames);
        },
        Message::Rwalk { wqids } => {
            if wqids.len() > 0xffff {
                return None;
            }
            put_u16(&mut out, wqids.len() as u16);
            put_qids(&mut out, wqids);
        },
        Message::Tclunk { fid } => {
            put_u32(&mut out, *fid);
        },
        Message::Rclunk => {},
    }
    assert(out@ =~= payload_bytes(m@));
    Some(out)
}

/// The bytes of the message `m` with the tag `tag`, where the message has
/// bytes on the wire.
pub fn encode(tag: u16, m: &Message) -> (result: Option<Vec<u8>>)
    ensures
        result is Some <==> encodable(m@),
        result matches Some(bytes) ==> bytes@ == frame_bytes(tag, m@),
{
    let payload = match encode_payload(m) {
        Some(p) => p,
        None => { return None; },
    };
    if payload.len() > 0xffff_ffff - HEADER_LEN {
        return None;
    }
    let mut out: Vec<u8> = Vec::with_capacity(HEADER_LEN + payload.len());
    put_u32(&mut out, (HEADER_LEN + payload.len()) as u32);
    put_u8(&mut out, opcode(m));
    put_u16(&mut out, tag);
    put_bytes(&mut out, payload.as_slice());
    assert(out@ =~= frame_bytes(tag, m@));
    Some(out)
}

} // verus!
