//! Reading messages: what received bytes stand for, the function that reads
//! them, and the proof that reading is the inverse of writing.

use crate::error::Error;
use crate::message::{counts_fit, data_bytes, encodable, frame_bytes, known_opcode, names_bytes};
use crate::message::{opcode_of, payload_bytes, qid_bytes, qids_bytes, reply_opcode};
use crate::message::{request_opcode, strings_valid, Message, MessageView, Qid, HEADER_LEN};
use crate::message::{RATTACH, RCLUNK, RLCREATE, RLERROR, RLOPEN, RREAD, RREADDIR, RWALK, RWRITE};
use crate::message::{TATTACH, TCLUNK, TLCREATE, TLOPEN, TREAD, TREADDIR, TWALK, TWRITE};
use crate::name::{names_view, valid_string, P9String};
use crate::wire::{le_u16, le_u32, lemma_regroup, lemma_take_string, lemma_take_string_bytes};
use crate::wire::{lemma_take_u16, lemma_take_u16_bytes, lemma_take_u32, lemma_take_u32_bytes};
use crate::wire::{lemma_take_u64, lemma_take_u64_bytes, lemma_take_u8, lemma_take_u8_bytes};
use crate::wire::{put_bytes, string_bytes, take_string, take_u16, take_u32, take_u64, take_u8};
use crate::wire::{u16_le, u32_le, u64_le, Reader};
use vstd::prelude::*;

verus! {

/// A `Qid` taken off the front of `s`, with what follows it.
pub open spec fn take_qid(s: Seq<u8>) -> Option<(Qid, Seq<u8>)> {
    match take_u8(s) {
        None => None,
        Some((type_, s1)) => match take_u32(s1) {
            None => None,
            Some((version, s2)) => match take_u64(s2) {
                None => None,
                Some((path, rest)) => Some((Qid { type_, version, path }, rest)),
            },
        },
    }
}

/// A run of data taken off the front of `s`, with what follows it. There is
/// none where the count is cut short or announces more bytes than follow.
pub open spec fn take_data(s: Seq<u8>) -> Option<(Seq<u8>, Seq<u8>)> {
    match take_u32(s) {
        None => None,
        Some((count, s1)) => if s1.len() < count {
            None
        } else {
            Some((s1.take(count as int), s1.skip(count as int)))
        },
    }
}

/// `n` strings taken off the front of `s`, with what follows them.
pub open spec fn take_names(s: Seq<u8>, n: nat) -> Option<(Seq<Seq<u8>>, Seq<u8>)>
    decreases n,
{
    if n == 0 {
        Some((Seq::empty(), s))
    } else {
        match take_string(s) {
            None => None,
            Some((name, s1)) => match take_names(s1, (n - 1) as nat) {
                None => None,
                Some((names, rest)) => Some((seq![name] + names, rest)),
            },
        }
    }
}

/// `n` `Qid`s taken off the front of `s`, with what follows them.
pub open spec fn take_qids(s: Seq<u8>, n: nat) -> Option<(Seq<Qid>, Seq<u8>)>
    decreases n,
{
    if n == 0 {
        Some((Seq::empty(), s))
    } else {
        match take_qid(s) {
            None => None,
            Some((qid, s1)) => match take_qids(s1, (n - 1) as nat) {
                None => None,
                Some((qids, rest)) => Some((seq![qid] + qids, rest)),
            },
        }
    }
}

/// The fields of a request to attach taken off the front of `s`.
pub open spec fn take_tattach(s: Seq<u8>) -> Option<(MessageView, Seq<u8>)> {
    match take_u32(s) {
        None => None,
        Some((fid, s1)) => match take_u32(s1) {
            None => None,
            Some((afid, s2)) => match take_string(s2) {
                None => None,
                Some((uname, s3)) => match take_string(s3) {
                    None => None,
                    Some((aname, s4)) => match take_u32(s4) {
                        None => None,
                        Some((n_uname, rest)) => Some(
                            (MessageView::Tattach { fid, afid, uname, aname, n_uname }, rest),
                        ),
                    },
                },
            },
        },
    }
}

/// The fields of a request to walk taken off the front of `s`.
pub open spec fn take_twalk(s: Seq<u8>) -> Option<(MessageView, Seq<u8>)> {
    match take_u32(s) {
        None => None,
        Some((fid, s1)) => match take_u32(s1) {
            None => None,
            Some((newfid, s2)) => match take_u16(s2) {
                None => None,
                Some((n, s3)) => match take_names(s3, n as nat) {
                    None => None,
                    Some((wnames, rest)) => Some(
                        (MessageView::Twalk { fid, newfid, wnames }, rest),
                    ),
                },
            },
        },
    }
}

/// The fields of a request to create taken off the front of `s`.
pub open spec fn take_tlcreate(s: Seq<u8>) -> Option<(MessageView, Seq<u8>)> {
    match take_u32(s) {
        None => None,
        Some((fid, s1)) => match take_string(s1) {
            None => None,
            Some((name, s2)) => match take_u32(s2) {
                None => None,
                Some((flags, s3)) => match take_u32(s3) {
                    None => None,
                    Some((mode, s4)) => match take_u32(s4) {
                        None => None,
                        Some((gid, rest)) => Some(
                            (MessageView::Tlcreate { fid, name, flags, mode, gid }, rest),
                        ),
                    },
                },
            },
        },
    }
}

/// An identifier, an offset and a count taken off the front of `s`: the
/// fields of a request to read and of a request to list.
pub open spec fn take_range(s: Seq<u8>) -> Option<((u32, u64, u32), Seq<u8>)> {
    match take_u32(s) {
        None => None,
        Some((fid, s1)) => match take_u64(s1) {
            None => None,
            Some((offset, s2)) => match take_u32(s2) {
                None => None,
                Some((count, rest)) => Some(((fid, offset, count), rest)),
            },
        },
    }
}

/// The fields of a request to write taken off the front of `s`.
pub open spec fn take_twrite(s: Seq<u8>) -> Option<(MessageView, Seq<u8>)> {
    match take_u32(s) {
        None => None,
        Some((fid, s1)) => match take_u64(s1) {
            None => None,
            Some((offset, s2)) => match take_data(s2) {
                None => None,
                Some((data, rest)) => Some((MessageView::Twrite { fid, offset, data }, rest)),
            },
        },
    }
}

/// An identity and a transfer size taken off the front of `s`: the fields of
/// the replies to a request to open and to a request to create.
pub open spec fn take_opened(s: Seq<u8>) -> Option<((Qid, u32), Seq<u8>)> {
    match take_qid(s) {
        None => None,
        Some((qid, s1)) => match take_u32(s1) {
            None => None,
            Some((iounit, rest)) => Some(((qid, iounit), rest)),
        },
    }
}

/// The fields of a request of kind `opcode` taken off the front of `s`, with
/// what follows them.
pub open spec fn take_request(opcode: u8, s: Seq<u8>) -> Option<(MessageView, Seq<u8>)> {
    if opcode == TLOPEN {
        match take_u32(s) {
            None => None,
            Some((fid, s1)) => match take_u32(s1) {
                None => None,
                Some((flags, rest)) => Some((MessageView::Tlopen { fid, flags }, rest)),
            },
        }
    } else if opcode == TLCREATE {
        take_tlcreate(s)
    } else if opcode == TREADDIR {
        match take_range(s) {
            None => None,
            Some(((fid, offset, count), rest)) => Some(
                (MessageView::Treaddir { fid, offset, count }, rest),
            ),
        }
    } else if opcode == TATTACH {
        take_tattach(s)
    } else if opcode == TWALK {
        take_twalk(s)
    } else if opcode == TREAD {
        match take_range(s) {
            None => None,
            Some(((fid, offset, count), rest)) => Some(
                (MessageView::Tread { fid, offset, count }, rest),
            ),
        }
    } else if opcode == TWRITE {
        take_twrite(s)
    } else if opcode == TCLUNK {
        match take_u32(s) {
            None => None,
            Some((fid, rest)) => Some((MessageView::Tclunk { fid }, rest)),
        }
    } else {
        None
    }
}

/// The fields of a reply of kind `opcode` taken off the front of `s`, with
/// what follows them.
pub open spec fn take_reply(opcode: u8, s: Seq<u8>) -> Option<(MessageView, Seq<u8>)> {
    if opcode == RLERROR {
        match take_u32(s) {
            None => None,
            Some((ecode, rest)) => Some((MessageView::Rlerror { ecode }, rest)),
        }
    } else if opcode == RLOPEN {
        match take_opened(s) {
            None => None,
            Some(((qid, iounit), rest)) => Some((MessageView::Rlopen { qid, iounit }, rest)),
        }
    } else if opcode == RLCREATE {
        match take_opened(s) {
            None => None,
            Some(((qid, iounit), rest)) => Some((MessageView::Rlcreate { qid, iounit }, rest)),
        }
    } else if opcode == RREADDIR {
        match take_data(s) {
            None => None,
            Some((data, rest)) => Some((MessageView::Rreaddir { data }, rest)),
        }
    } else if opcode == RATTACH {
        match take_qid(s) {
            None => None,
            Some((qid, rest)) => Some((MessageView::Rattach { qid }, rest)),
        }
    } else if opcode == RWALK {
        match take_u16(s) {
            None => None,
            Some((n, s1)) => match take_qids(s1, n as nat) {
                None => None,
                Some((wqids, rest)) => Some((MessageView::Rwalk { wqids }, rest)),
            },
        }
    } else if opcode == RREAD {
        match take_data(s) {
            None => None,
            Some((data, rest)) => Some((MessageView::Rread { data }, rest)),
        }
    } else if opcode == RWRITE {
        match take_u32(s) {
            None => None,
            Some((count, rest)) => Some((MessageView::Rwrite { count }, rest)),
        }
    } else if opcode == RCLUNK {
        Some((MessageView::Rclunk, s))
    } else {
        None
    }
}

/// The fields of a message of kind `opcode` taken off the front of `s`, with
/// what follows them.
pub open spec fn take_fields(opcode: u8, s: Seq<u8>) -> Option<(MessageView, Seq<u8>)> {
    if request_opcode(opcode) {
        take_request(opcode, s)
    } else {
        take_reply(opcode, s)
    }
}

/// Why received bytes gave no message.
#[derive(Clone, Copy, Debug, PartialEq, Eq, Structural)]
pub enum DecodeError {
    /// The bytes are not one well-framed message: the header is cut short,
    /// the size it announces is not the number of bytes received, or the
    /// fields of the announced kind are not exactly what follows the header.
    Malformed,
    /// The header is sound but announces a kind of message that this library
    /// does not know.
    Unimplemented { tag: u16 },
}

impl DecodeError {
    /// The failure as the connection reports it: bytes that are not one
    /// well-framed message are a `MalformedMessage`, which is fatal; an
    /// unknown kind of message is `Unimplemented`, which is not.
    pub open spec fn error_of(self) -> Error {
        match self {
            DecodeError::Malformed => Error::MalformedMessage,
            DecodeError::Unimplemented { .. } => Error::Unimplemented,
        }
    }

    /// The failure as the connection reports it.
    pub fn error(self) -> (error: Error)
        ensures
            error == self.error_of(),
            error.fatal() <==> self == DecodeError::Malformed,
    {
        match self {
            DecodeError::Malformed => Error::MalformedMessage,
            DecodeError::Unimplemented { .. } => Error::Unimplemented,
        }
    }
}

/// What received bytes stand for: a tag and a message, or the reason why
/// they stand for none.
pub open spec fn decode_of(bytes: Seq<u8>) -> Result<(u16, MessageView), DecodeError> {
    if bytes.len() < HEADER_LEN || le_u32(bytes) != bytes.len() {
        Err(DecodeError::Malformed)
    } else {
        let opcode = bytes[4];
        let tag = le_u16(bytes.skip(5));
        if !known_opcode(opcode) {
            Err(DecodeError::Unimplemented { tag })
        } else {
            match take_fields(opcode, bytes.skip(7)) {
                Some((m, rest)) => if rest.len() == 0 {
                    Ok((tag, m))
                } else {
                    Err(DecodeError::Malformed)
                },
                None => Err(DecodeError::Malformed),
            }
        }
    }
}

/// Takes a `Qid` from `reader`, if a whole one is at the front.
pub fn read_qid(reader: &mut Reader) -> (qid: Option<Qid>)
    ensures
        match take_qid(old(reader).remaining()) {
            Some((q, rest)) => qid == Some(q) && final(reader).remaining() == rest,
            None => qid is None,
        },
{
    let type_ = match reader.u8() {
        Some(v) => v,
        None => { return None; },
    };
    let version = match reader.u32() {
        Some(v) => v,
        None => { return None; },
    };
    let path = match reader.u64() {
        Some(v) => v,
        None => { return None; },
    };
    Some(Qid { type_, version, path })
}

/// Takes a run of data from `reader`, if a whole one is at the front.
pub fn read_data(reader: &mut Reader) -> (data: Option<Vec<u8>>)
    ensures
        match take_data(old(reader).remaining()) {
            Some((d, rest)) => data is Some && data->0@ == d && final(reader).remaining() == rest,
            None => data is None,
        },
{
    let count = match reader.u32() {
        Some(v) => v,
        None => { return None; },
    };
    let body = match reader.bytes(count as usize) {
        Some(v) => v,
        None => { return None; },
    };
    let mut data: Vec<u8> = Vec::with_capacity(body.len());
    put_bytes(&mut data, body);
    assert(data@ =~= body@);
    Some(data)
}

/// Takes `n` strings from `reader`, if that many whole and valid ones are at
/// the front.
pub fn read_names(reader: &mut Reader, n: u16) -> (names: Option<Vec<P9String>>)
    ensures
        match take_names(old(reader).remaining(), n as nat) {
            Some((ns, rest)) => {
                &&& names is Some
                &&& names_view(names->0@) == ns
                &&& final(reader).remaining() == rest
            },
            None => names is None,
        },
{
    let ghost start = reader.remaining();
    let mut out: Vec<P9String> = Vec::new();
    let mut i: u16 = 0;
    assert(names_view(out@) =~= Seq::<Seq<u8>>::empty());
    assert(forall|ns: Seq<Seq<u8>>| #[trigger] (Seq::<Seq<u8>>::empty() + ns) =~= ns);
    while i < n
        invariant
            i <= n,
            start == old(reader).remaining(),
            take_names(start, n as nat) == match take_names(
                reader.remaining(),
                (n - i) as nat,
            ) {
                Some((ns, rest)) => Some((names_view(out@) + ns, rest)),
                None => None,
            },
        decreases n - i,
    {
        let ghost acc = names_view(out@);
        match reader.string() {
            None => { return None; },
            Some(name) => {
                out.push(name);
                proof {
                    let grown = names_view(out@);
                    assert(grown =~= acc.push(name@));
                    assert(forall|ns: Seq<Seq<u8>>| #[trigger]
                        (grown + ns) =~= acc + (seq![name@] + ns));
                }
            },
        }
        i += 1;
    }
    assert(names_view(out@) + Seq::<Seq<u8>>::empty() =~= names_view(out@));
    Some(out)
}

/// Takes `n` `Qid`s from `reader`, if that many whole ones are at the front.
pub fn read_qids(reader: &mut Reader, n: u16) -> (qids: Option<Vec<Qid>>)
    ensures
        match take_qids(old(reader).remaining(), n as nat) {
            Some((qs, rest)) => qids is Some && qids->0@ == qs && final(reader).remaining()
                == rest,
            None => qids is None,
        },
{
    let ghost start = reader.remaining();
    let mut out: Vec<Qid> = Vec::new();
    let mut i: u16 = 0;
    assert(forall|qs: Seq<Qid>| #[trigger] (Seq::<Qid>::empty() + qs) =~= qs);
    while i < n
        invariant
            i <= n,
            start == old(reader).remaining(),
            take_qids(start, n as nat) == match take_qids(reader.remaining(), (n - i) as nat) {
                Some((qs, rest)) => Some((out@ + qs, rest)),
                None => None,
            },
        decreases n - i,
    {
        let ghost acc = out@;
        match read_qid(reader) {
            None => { return None; },
            Some(qid) => {
                out.push(qid);
                proof {
                    assert(forall|qs: Seq<Qid>| #[trigger]
                        (out@ + qs) =~= acc + (seq![qid] + qs));
                }
            },
        }
        i += 1;
    }
    assert(out@ + Seq::<Qid>::empty() =~= out@);
    Some(out)
}

/// Takes an identifier, an offset and a count from `reader`.
fn read_range(reader: &mut Reader) -> (range: Option<(u32, u64, u32)>)
    ensures
        match take_range(old(reader).remaining()) {
            Some((r, rest)) => range == Some(r) && final(reader).remaining() == rest,
            None => range is None,
        },
{
    let fid = match reader.u32() {
        Some(v) => v,
        None => { return None; },
    };
    let offset = match reader.u64() {
        Some(v) => v,
        None => { return None; },
    };
    let count = match reader.u32() {
        Some(v) => v,
        None => { return None; },
    };
    Some((fid, offset, count))
}

/// Takes an identity and a transfer size from `reader`.
fn read_opened(reader: &mut Reader) -> (opened: Option<(Qid, u32)>)
    ensures
        match take_opened(old(reader).remaining()) {
            Some((o, rest)) => opened == Some(o) && final(reader).remaining() == rest,
            None => opened is None,
        },
{
    let qid = match read_qid(reader) {
        Some(v) => v,
        None => { return None; },
    };
    let iounit = match reader.u32() {
        Some(v) => v,
        None => { return None; },
    };
    Some((qid, iounit))
}

/// Takes the fields of a request to attach from `reader`.
fn read_tattach(reader: &mut Reader) -> (message: Option<Message>)
    ensures
        match take_tattach(old(reader).remaining()) {
            Some((m, rest)) => message is Some && message->0@ == m && final(reader).remaining()
                == rest,
            None => message is None,
        },
{
    let fid = match reader.u32() {
        Some(v) => v,
        None => { return None; },
    };
    let afid = match reader.u32() {
        Some(v) => v,
        None => { return None; },
    };
    let uname = match reader.string() {
        Some(v) => v,
        None => { return None; },
    };
    let aname = match reader.string() {
        Some(v) => v,
        None => { return None; },
    };
    let n_uname = match reader.u32() {
        Some(v) => v,
        None => { return None; },
    };
    Some(Message::Tattach { fid, afid, uname, aname, n_uname })
}

/// Takes the fields of a request to walk from `reader`.
fn read_twalk(reader: &mut Reader) -> (message: Option<Message>)
    ensures
        match take_twalk(old(reader).remaining()) {
            Some((m, rest)) => message is Some && message->0@ == m && final(reader).remaining()
                == rest,
            None => message is None,
        },
{
    let fid = match reader.u32() {
        Some(v) => v,
        None => { return None; },
    };
    let newfid = match reader.u32() {
        Some(v) => v,
        None => { return None; },
    };
    let n = match reader.u16() {
        Some(v) => v,
        None => { return None; },
    };
    let wnames = match read_names(reader, n) {
        Some(v) => v,
        None => { return None; },
    };
    Some(Message::Twalk { fid, newfid, wnames })
}

/// Takes the fields of a request to create from `reader`.
fn read_tlcreate(reader: &mut Reader) -> (message: Option<Message>)
    ensures
        match take_tlcreate(old(reader).remaining()) {
            Some((m, rest)) => message is Some && message->0@ == m && final(reader).remaining()
                == rest,
            None => message is None,
        },
{
    let fid = match reader.u32() {
        Some(v) => v,
        None => { return None; },
    };
    let name = match reader.string() {
        Some(v) => v,
        None => { return None; },
    };
    let flags = match reader.u32() {
        Some(v) => v,
        None => { return None; },
    };
    let mode = match reader.u32() {
        Some(v) => v,
        None => { return None; },
    };
    let gid = match reader.u32() {
        Some(v) => v,
        None => { return None; },
    };
    Some(Message::Tlcreate { fid, name, flags, mode, gid })
}

/// Takes the fields of a request to write from `reader`.
fn read_twrite(reader: &mut Reader) -> (message: Option<Message>)
    ensures
        match take_twrite(old(reader).remaining()) {
            Some((m, rest)) => message is Some && message->0@ == m && final(reader).remaining()
                == rest,
            None => message is None,
        },
{
    let fid = match reader.u32() {
        Some(v) => v,
        None => { return None; },
    };
    let offset = match reader.u64() {
        Some(v) => v,
        None => { return None; },
    };
    let data = match read_data(reader) {
        Some(v) => v,
        None => { return None; },
    };
    Some(Message::Twrite { fid, offset, data })
}

/// Takes the fields of a request of kind `opcode` from `reader`, if they are
/// at the front.
pub fn read_request(opcode: u8, reader: &mut Reader) -> (message: Option<Message>)
    ensures
        match take_request(opcode, old(reader).remaining()) {
            Some((m, rest)) => message is Some && message->0@ == m && final(reader).remaining()
                == rest,
            None => message is None,
        },
{
    if opcode == TLOPEN {
        let fid = match reader.u32() {
            Some(v) => v,
            None => { return None; },
        };
        let flags = match reader.u32() {
            Some(v) => v,
            None => { return None; },
        };
        Some(Message::Tlopen { fid, flags })
    } else if opcode == TLCREATE {
        read_tlcreate(reader)
    } else if opcode == TREADDIR {
        match read_range(reader) {
            Some((fid, offset, count)) => Some(Message::Treaddir { fid, offset, count }),
            None => None,
        }
    } else if opcode == TATTACH {
        read_tattach(reader)
    } else if opcode == TWALK {
        read_twalk(reader)
    } else if opcode == TREAD {
        match read_range(reader) {
            Some((fid, offset, count)) => Some(Message::Tread { fid, offset, count }),
            None => None,
        }
    } else if opcode == TWRITE {
        read_twrite(reader)
    } else if opcode == TCLUNK {
        match reader.u32() {
            Some(fid) => Some(Message::Tclunk { fid }),
            None => None,
        }
    } else {
        None
    }
}

/// Takes the fields of a reply of kind `opcode` from `reader`, if they are
/// at the front.
pub fn read_reply(opcode: u8, reader: &mut Reader) -> (message: Option<Message>)
    ensures
        match take_reply(opcode, old(reader).remaining()) {
            Some((m, rest)) => message is Some && message->0@ == m && final(reader).remaining()
                == rest,
            None => message is None,
        },
{
    if opcode == RLERROR {
        match reader.u32() {
            Some(ecode) => Some(Message::Rlerror { ecode }),
            None => None,
        }
    } else if opcode == RLOPEN {
        match read_opened(reader) {
            Some((qid, iounit)) => Some(Message::Rlopen { qid, iounit }),
            None => None,
        }
    } else if opcode == RLCREATE {
        match read_opened(reader) {
            Some((qid, iounit)) => Some(Message::Rlcreate { qid, iounit }),
            None => None,
        }
    } else if opcode == RREADDIR {
        match read_data(reader) {
            Some(data) => Some(Message::Rreaddir { data }),
            None => None,
        }
    } else if opcode == RATTACH {
        match read_qid(reader) {
            Some(qid) => Some(Message::Rattach { qid }),
            None => None,
        }
    } else if opcode == RWALK {
        let n = match reader.u16() {
            Some(v) => v,
            None => { return None; },
        };
        match read_qids(reader, n) {
            Some(wqids) => Some(Message::Rwalk { wqids }),
            None => None,
        }
    } else if opcode == RREAD {
        match read_data(reader) {
            Some(data) => Some(Message::Rread { data }),
            None => None,
        }
    } else if opcode == RWRITE {
        match reader.u32() {
            Some(count) => Some(Message::Rwrite { count }),
            None => None,
        }
    } else if opcode == RCLUNK {
        Some(Message::Rclunk)
    } else {
        None
    }
}

/// Whether `opcode` tells a kind of request that this library knows.
pub fn is_request_opcode(opcode: u8) -> (known: bool)
    ensures
        known == request_opcode(opcode),
{
    opcode == TLOPEN || opcode == TLCREATE || opcode == TREADDIR || opcode == TATTACH || opcode
        == TWALK || opcode == TREAD || opcode == TWRITE || opcode == TCLUNK
}

/// Whether `opcode` tells a kind of reply that this library knows.
pub fn is_reply_opcode(opcode: u8) -> (known: bool)
    ensures
        known == reply_opcode(opcode),
{
    opcode == RLERROR || opcode == RLOPEN || opcode == RLCREATE || opcode == RREADDIR || opcode
        == RATTACH || opcode == RWALK || opcode == RREAD || opcode == RWRITE || opcode == RCLUNK
}

/// Takes the fields of a message of kind `opcode` from `reader`, if they
/// are at the front.
pub fn read_fields(opcode: u8, reader: &mut Reader) -> (message: Option<Message>)
    ensures
        match take_fields(opcode, old(reader).remaining()) {
            Some((m, rest)) => message is Some && message->0@ == m && final(reader).remaining()
                == rest,
            None => message is None,
        },
{
    if is_request_opcode(opcode) {
        read_request(opcode, reader)
    } else {
        read_reply(opcode, reader)
    }
}

/// Reads one message from `bytes`, which must hold exactly one.
pub fn decode(bytes: &[u8]) -> (result: Result<(u16, Message), DecodeError>)
    ensures
        match decode_of(bytes@) {
            Ok((tag, m)) => result matches Ok((t, message)) && t == tag && message@ == m,
            Err(e) => result matches Err(failure) && failure == e,
        },
{
    if bytes.len() < HEADER_LEN {
        return Err(DecodeError::Malformed);
    }
    let mut reader = Reader::new(bytes);
    let size = reader.u32().unwrap();
    if size as usize != bytes.len() {
        return Err(DecodeError::Malformed);
    }
    let opcode = reader.u8().unwrap();
    assert(reader.remaining() =~= bytes@.skip(5));
    let tag = reader.u16().unwrap();
    assert(reader.remaining() =~= bytes@.skip(7));
    if !is_request_opcode(opcode) && !is_reply_opcode(opcode) {
        return Err(DecodeError::Unimplemented { tag });
    }
    let message = match read_fields(opcode, &mut reader) {
        Some(m) => m,
        None => { return Err(DecodeError::Malformed); },
    };
    if reader.left() != 0 {
        return Err(DecodeError::Malformed);
    }
    Ok((tag, message))
}

/// Taking a `Qid` off the front of its own bytes gives the `Qid` and
/// whatever followed the bytes.
pub proof fn lemma_take_qid(q: Qid, rest: Seq<u8>)
    ensures
        take_qid(qid_bytes(q) + rest) == Some((q, rest)),
{
    let tail1 = u32_le(q.version) + u64_le(q.path);
    lemma_regroup(seq![q.type_], tail1, rest);
    lemma_regroup(u32_le(q.version), u64_le(q.path), rest);
    lemma_take_u8(q.type_, tail1 + rest);
    lemma_take_u32(q.version, u64_le(q.path) + rest);
    lemma_take_u64(q.path, rest);
}

/// Taking a run of data off the front of its own bytes gives the data and
/// whatever followed the bytes.
pub proof fn lemma_take_data(data: Seq<u8>, rest: Seq<u8>)
    requires
        data.len() <= u32::MAX,
    ensures
        take_data(data_bytes(data) + rest) == Some((data, rest)),
{
    lemma_regroup(u32_le(data.len() as u32), data, rest);
    lemma_take_u32(data.len() as u32, data + rest);
    assert((data + rest).take(data.len() as int) =~= data);
    assert((data + rest).skip(data.len() as int) =~= rest);
}

/// Taking as many strings as a list holds off the front of the bytes of the
/// list gives the list and whatever followed the bytes.
pub proof fn lemma_take_names(names: Seq<Seq<u8>>, rest: Seq<u8>)
    requires
        forall|i: int| 0 <= i < names.len() ==> valid_string(#[trigger] names[i]),
    ensures
        take_names(names_bytes(names) + rest, names.len()) == Some((names, rest)),
    decreases names.len(),
{
    if names.len() == 0 {
        assert(names_bytes(names) + rest =~= rest);
        assert(names =~= Seq::<Seq<u8>>::empty());
    } else {
        let tail = names.skip(1);
        let after = names_bytes(tail) + rest;
        lemma_regroup(string_bytes(names[0]), names_bytes(tail), rest);
        lemma_take_string(names[0], after);
        assert forall|i: int| 0 <= i < tail.len() implies valid_string(#[trigger] tail[i]) by {
            assert(tail[i] == names[i + 1]);
        }
        lemma_take_names(tail, rest);
        assert(seq![names[0]] + tail =~= names);
    }
}

/// Taking as many `Qid`s as a list holds off the front of the bytes of the
/// list gives the list and whatever followed the bytes.
pub proof fn lemma_take_qids(qids: Seq<Qid>, rest: Seq<u8>)
    ensures
        take_qids(qids_bytes(qids) + rest, qids.len()) == Some((qids, rest)),
    decreases qids.len(),
{
    if qids.len() == 0 {
        assert(qids_bytes(qids) + rest =~= rest);
        assert(qids =~= Seq::<Qid>::empty());
    } else {
        let tail = qids.skip(1);
        let after = qids_bytes(tail) + rest;
        lemma_regroup(qid_bytes(qids[0]), qids_bytes(tail), rest);
        lemma_take_qid(qids[0], after);
        lemma_take_qids(tail, rest);
        assert(seq![qids[0]] + tail =~= qids);
    }
}

/// `lemma_take_fields` for a request to attach.
#[verifier::rlimit(40)]
proof fn lemma_take_tattach(
    fid: u32,
    afid: u32,
    uname: Seq<u8>,
    aname: Seq<u8>,
    n_uname: u32,
    rest: Seq<u8>,
)
    requires
        valid_string(uname),
        valid_string(aname),
    ensures
        take_tattach(
            payload_bytes(MessageView::Tattach { fid, afid, uname, aname, n_uname }) + rest,
        ) == Some((MessageView::Tattach { fid, afid, uname, aname, n_uname }, rest)),
{
    let tail4 = u32_le(n_uname);
    let tail3 = string_bytes(aname) + tail4;
    let tail2 = string_bytes(uname) + tail3;
    let tail1 = u32_le(afid) + tail2;
    lemma_regroup(u32_le(fid), tail1, rest);
    lemma_regroup(u32_le(afid), tail2, rest);
    lemma_regroup(string_bytes(uname), tail3, rest);
    lemma_regroup(string_bytes(aname), tail4, rest);
    lemma_take_u32(fid, tail1 + rest);
    lemma_take_u32(afid, tail2 + rest);
    lemma_take_string(uname, tail3 + rest);
    lemma_take_string(aname, tail4 + rest);
    lemma_take_u32(n_uname, rest);
}

/// `lemma_take_fields` for a request to walk.
#[verifier::rlimit(40)]
proof fn lemma_take_twalk(fid: u32, newfid: u32, wnames: Seq<Seq<u8>>, rest: Seq<u8>)
    requires
        wnames.len() <= u16::MAX,
        forall|i: int| 0 <= i < wnames.len() ==> valid_string(#[trigger] wnames[i]),
    ensures
        take_twalk(payload_bytes(MessageView::Twalk { fid, newfid, wnames }) + rest) == Some(
            (MessageView::Twalk { fid, newfid, wnames }, rest),
        ),
{
    let n = wnames.len() as u16;
    let tail3 = names_bytes(wnames);
    let tail2 = u16_le(n) + tail3;
    let tail1 = u32_le(newfid) + tail2;
    lemma_regroup(u32_le(fid), tail1, rest);
    lemma_regroup(u32_le(newfid), tail2, rest);
    lemma_regroup(u16_le(n), tail3, rest);
    lemma_take_u32(fid, tail1 + rest);
    lemma_take_u32(newfid, tail2 + rest);
    lemma_take_u16(n, tail3 + rest);
    lemma_take_names(wnames, rest);
}

/// `lemma_take_fields` for a request to create.
#[verifier::rlimit(40)]
proof fn lemma_take_tlcreate(
    fid: u32,
    name: Seq<u8>,
    flags: u32,
    mode: u32,
    gid: u32,
    rest: Seq<u8>,
)
    requires
        valid_string(name),
    ensures
        take_tlcreate(
            payload_bytes(MessageView::Tlcreate { fid, name, flags, mode, gid }) + rest,
        ) == Some((MessageView::Tlcreate { fid, name, flags, mode, gid }, rest)),
{
    let tail4 = u32_le(gid);
    let tail3 = u32_le(mode) + tail4;
    let tail2 = u32_le(flags) + tail3;
    let tail1 = string_bytes(name) + tail2;
    lemma_regroup(u32_le(fid), tail1, rest);
    lemma_regroup(string_bytes(name), tail2, rest);
    lemma_regroup(u32_le(flags), tail3, rest);
    lemma_regroup(u32_le(mode), tail4, rest);
    lemma_take_u32(fid, tail1 + rest);
    lemma_take_string(name, tail2 + rest);
    lemma_take_u32(flags, tail3 + rest);
    lemma_take_u32(mode, tail4 + rest);
    lemma_take_u32(gid, rest);
}

/// Taking an identifier, an offset and a count off the front of their own
/// bytes gives them and whatever followed the bytes.
proof fn lemma_take_range(fid: u32, offset: u64, count: u32, rest: Seq<u8>)
    ensures
        take_range(u32_le(fid) + (u64_le(offset) + u32_le(count)) + rest) == Some(
            ((fid, offset, count), rest),
        ),
{
    let tail1 = u64_le(offset) + u32_le(count);
    lemma_regroup(u32_le(fid), tail1, rest);
    lemma_regroup(u64_le(offset), u32_le(count), rest);
    lemma_take_u32(fid, tail1 + rest);
    lemma_take_u64(offset, u32_le(count) + rest);
    lemma_take_u32(count, rest);
}

/// `lemma_take_fields` for a request to write.
proof fn lemma_take_twrite(fid: u32, offset: u64, data: Seq<u8>, rest: Seq<u8>)
    requires
        data.len() <= u32::MAX,
    ensures
        take_twrite(payload_bytes(MessageView::Twrite { fid, offset, data }) + rest) == Some(
            (MessageView::Twrite { fid, offset, data }, rest),
        ),
{
    let tail1 = u64_le(offset) + data_bytes(data);
    lemma_regroup(u32_le(fid), tail1, rest);
    lemma_regroup(u64_le(offset), data_bytes(data), rest);
    lemma_take_u32(fid, tail1 + rest);
    lemma_take_u64(offset, data_bytes(data) + rest);
    lemma_take_data(data, rest);
}

/// Taking an identity and a transfer size off the front of their own bytes
/// gives them and whatever followed the bytes.
proof fn lemma_take_opened(qid: Qid, iounit: u32, rest: Seq<u8>)
    ensures
        take_opened(qid_bytes(qid) + u32_le(iounit) + rest) == Some(((qid, iounit), rest)),
{
    lemma_regroup(qid_bytes(qid), u32_le(iounit), rest);
    lemma_take_qid(qid, u32_le(iounit) + rest);
    lemma_take_u32(iounit, rest);
}

/// Taking the fields of a request off the front of their own bytes gives
/// the request and whatever followed the bytes.
#[verifier::rlimit(40)]
proof fn lemma_take_request(m: MessageView, rest: Seq<u8>)
    requires
        request_opcode(opcode_of(m)),
        strings_valid(m),
        counts_fit(m),
    ensures
        take_request(opcode_of(m), payload_bytes(m) + rest) == Some((m, rest)),
{
    match m {
        MessageView::Tlopen { fid, flags } => {
            lemma_regroup(u32_le(fid), u32_le(flags), rest);
            lemma_take_u32(fid, u32_le(flags) + rest);
            lemma_take_u32(flags, rest);
        },
        MessageView::Tlcreate { fid, name, flags, mode, gid } => {
            lemma_take_tlcreate(fid, name, flags, mode, gid, rest);
        },
        MessageView::Treaddir { fid, offset, count } => {
            lemma_take_range(fid, offset, count, rest);
        },
        MessageView::Tattach { fid, afid, uname, aname, n_uname } => {
            lemma_take_tattach(fid, afid, uname, aname, n_uname, rest);
        },
        MessageView::Twalk { fid, newfid, wnames } => {
            lemma_take_twalk(fid, newfid, wnames, rest);
        },
        MessageView::Tread { fid, offset, count } => {
            lemma_take_range(fid, offset, count, rest);
        },
        MessageView::Twrite { fid, offset, data } => {
            lemma_take_twrite(fid, offset, data, rest);
        },
        MessageView::Tclunk { fid } => {
            lemma_take_u32(fid, rest);
        },
        _ => {},
    }
}

/// Taking the fields of a reply off the front of their own bytes gives the
/// reply and whatever followed the bytes.
#[verifier::rlimit(40)]
proof fn lemma_take_reply(m: MessageView, rest: Seq<u8>)
    requires
        reply_opcode(opcode_of(m)),
        counts_fit(m),
    ensures
        take_reply(opcode_of(m), payload_bytes(m) + rest) == Some((m, rest)),
{
    match m {
        MessageView::Rlerror { ecode } => {
            lemma_take_u32(ecode, rest);
        },
        MessageView::Rlopen { qid, iounit } => {
            lemma_take_opened(qid, iounit, rest);
        },
        MessageView::Rlcreate { qid, iounit } => {
            lemma_take_opened(qid, iounit, rest);
        },
        MessageView::Rreaddir { data } => {
            lemma_take_data(data, rest);
        },
        MessageView::Rattach { qid } => {
            lemma_take_qid(qid, rest);
        },
        MessageView::Rwalk { wqids } => {
            let n = wqids.len() as u16;
            lemma_regroup(u16_le(n), qids_bytes(wqids), rest);
            lemma_take_u16(n, qids_bytes(wqids) + rest);
            lemma_take_qids(wqids, rest);
        },
        MessageView::Rread { data } => {
            lemma_take_data(data, rest);
        },
        MessageView::Rwrite { count } => {
            lemma_take_u32(count, rest);
        },
        MessageView::Rclunk => {
            assert(payload_bytes(m) + rest =~= rest);
        },
        _ => {},
    }
}

/// Taking the fields of a message off the front of their own bytes gives
/// the message and whatever followed the bytes.
pub proof fn lemma_take_fields(m: MessageView, rest: Seq<u8>)
    requires
        strings_valid(m),
        counts_fit(m),
    ensures
        take_fields(opcode_of(m), payload_bytes(m) + rest) == Some((m, rest)),
{
    if request_opcode(opcode_of(m)) {
        lemma_take_request(m, rest);
    } else {
        lemma_take_reply(m, rest);
    }
}

/// The round trip: the bytes of any message that has bytes on the wire
/// stand for that message, with its tag.
pub proof fn lemma_round_trip(tag: u16, m: MessageView)
    requires
        encodable(m),
    ensures
        decode_of(frame_bytes(tag, m)) == Ok::<(u16, MessageView), DecodeError>((tag, m)),
{
    let payload = payload_bytes(m);
    let size = (HEADER_LEN + payload.len()) as u32;
    let s2 = u16_le(tag) + payload;
    let s1 = seq![opcode_of(m)] + s2;
    let bytes = frame_bytes(tag, m);
    assert(bytes =~= u32_le(size) + s1);
    lemma_take_u32(size, s1);
    assert(bytes.skip(5) =~= s2);
    lemma_take_u16(tag, payload);
    assert(bytes.skip(7) =~= payload);
    assert(payload + Seq::<u8>::empty() =~= payload);
    lemma_take_fields(m, Seq::empty());
}

/// A `Qid` that was taken off the front of `s` gives, written out and
/// followed by the rest, `s` again.
pub proof fn lemma_take_qid_bytes(s: Seq<u8>)
    requires
        take_qid(s) is Some,
    ensures
        take_qid(s) matches Some((q, rest)) && qid_bytes(q) + rest == s,
{
    let (q, rest) = take_qid(s)->0;
    let s1 = s.skip(1);
    let s2 = s1.skip(4);
    lemma_take_u8_bytes(s);
    lemma_take_u32_bytes(s1);
    lemma_take_u64_bytes(s2);
    lemma_regroup(u32_le(q.version), u64_le(q.path), rest);
    lemma_regroup(seq![q.type_], u32_le(q.version) + u64_le(q.path), rest);
}

/// A run of data that was taken off the front of `s` fits its count field
/// and gives, written out and followed by the rest, `s` again.
pub proof fn lemma_take_data_bytes(s: Seq<u8>)
    requires
        take_data(s) is Some,
    ensures
        take_data(s) matches Some((data, rest)) && data.len() <= u32::MAX && data_bytes(data)
            + rest == s,
{
    let (data, rest) = take_data(s)->0;
    lemma_take_u32_bytes(s);
    assert(data + rest =~= s.skip(4));
    lemma_regroup(u32_le(data.len() as u32), data, rest);
}

/// Strings that were taken off the front of `s` are as many as were asked
/// for, are strings of the wire format, and give, written out and followed
/// by the rest, `s` again.
pub proof fn lemma_take_names_bytes(s: Seq<u8>, n: nat)
    requires
        take_names(s, n) is Some,
    ensures
        take_names(s, n) matches Some((names, rest)) && names.len() == n && names_bytes(names)
            + rest == s && forall|i: int|
            0 <= i < names.len() ==> valid_string(#[trigger] names[i]),
    decreases n,
{
    let (names, rest) = take_names(s, n)->0;
    if n == 0 {
        assert(names_bytes(names) + rest =~= s);
    } else {
        let (name, s1) = take_string(s)->0;
        let (tail, end) = take_names(s1, (n - 1) as nat)->0;
        lemma_take_string_bytes(s);
        lemma_take_names_bytes(s1, (n - 1) as nat);
        assert(names.skip(1) =~= tail);
        lemma_regroup(string_bytes(name), names_bytes(tail), rest);
        assert forall|i: int| 0 <= i < names.len() implies valid_string(#[trigger] names[i]) by {
            if i > 0 {
                assert(names[i] == tail[i - 1]);
            }
        }
    }
}

/// `Qid`s that were taken off the front of `s` are as many as were asked
/// for and give, written out and followed by the rest, `s` again.
pub proof fn lemma_take_qids_bytes(s: Seq<u8>, n: nat)
    requires
        take_qids(s, n) is Some,
    ensures
        take_qids(s, n) matches Some((qids, rest)) && qids.len() == n && qids_bytes(qids) + rest
            == s,
    decreases n,
{
    let (qids, rest) = take_qids(s, n)->0;
    if n == 0 {
        assert(qids_bytes(qids) + rest =~= s);
    } else {
        let (qid, s1) = take_qid(s)->0;
        let (tail, end) = take_qids(s1, (n - 1) as nat)->0;
        lemma_take_qid_bytes(s);
        lemma_take_qids_bytes(s1, (n - 1) as nat);
        assert(qids.skip(1) =~= tail);
        lemma_regroup(qid_bytes(qid), qids_bytes(tail), rest);
    }
}

/// `lemma_take_fields_bytes` for a request to attach.
#[verifier::rlimit(40)]
proof fn lemma_take_tattach_bytes(s: Seq<u8>)
    requires
        take_tattach(s) is Some,
    ensures
        take_tattach(s) matches Some((m, rest)) && m is Tattach && strings_valid(m)
            && payload_bytes(m) + rest == s,
{
    let (m, rest) = take_tattach(s)->0;
    let (_, s1) = take_u32(s)->0;
    let (_, s2) = take_u32(s1)->0;
    let (_, s3) = take_string(s2)->0;
    let (_, s4) = take_string(s3)->0;
    lemma_take_u32_bytes(s);
    lemma_take_u32_bytes(s1);
    lemma_take_string_bytes(s2);
    lemma_take_string_bytes(s3);
    lemma_take_u32_bytes(s4);
    if let MessageView::Tattach { fid, afid, uname, aname, n_uname } = m {
        let tail4 = u32_le(n_uname);
        let tail3 = string_bytes(aname) + tail4;
        let tail2 = string_bytes(uname) + tail3;
        let tail1 = u32_le(afid) + tail2;
        lemma_regroup(string_bytes(aname), tail4, rest);
        lemma_regroup(string_bytes(uname), tail3, rest);
        lemma_regroup(u32_le(afid), tail2, rest);
        lemma_regroup(u32_le(fid), tail1, rest);
    }
}

/// `lemma_take_fields_bytes` for a request to walk.
#[verifier::rlimit(40)]
proof fn lemma_take_twalk_bytes(s: Seq<u8>)
    requires
        take_twalk(s) is Some,
    ensures
        take_twalk(s) matches Some((m, rest)) && m is Twalk && strings_valid(m) && counts_fit(m)
            && payload_bytes(m) + rest == s,
{
    let (m, rest) = take_twalk(s)->0;
    let (_, s1) = take_u32(s)->0;
    let (_, s2) = take_u32(s1)->0;
    let (n, s3) = take_u16(s2)->0;
    lemma_take_u32_bytes(s);
    lemma_take_u32_bytes(s1);
    lemma_take_u16_bytes(s2);
    lemma_take_names_bytes(s3, n as nat);
    if let MessageView::Twalk { fid, newfid, wnames } = m {
        let tail3 = names_bytes(wnames);
        let tail2 = u16_le(n) + tail3;
        let tail1 = u32_le(newfid) + tail2;
        lemma_regroup(u16_le(n), tail3, rest);
        lemma_regroup(u32_le(newfid), tail2, rest);
        lemma_regroup(u32_le(fid), tail1, rest);
    }
}

/// `lemma_take_fields_bytes` for a request to create.
#[verifier::rlimit(40)]
proof fn lemma_take_tlcreate_bytes(s: Seq<u8>)
    requires
        take_tlcreate(s) is Some,
    ensures
        take_tlcreate(s) matches Some((m, rest)) && m is Tlcreate && strings_valid(m)
            && payload_bytes(m) + rest == s,
{
    let (m, rest) = take_tlcreate(s)->0;
    let (_, s1) = take_u32(s)->0;
    let (_, s2) = take_string(s1)->0;
    let (_, s3) = take_u32(s2)->0;
    let (_, s4) = take_u32(s3)->0;
    lemma_take_u32_bytes(s);
    lemma_take_string_bytes(s1);
    lemma_take_u32_bytes(s2);
    lemma_take_u32_bytes(s3);
    lemma_take_u32_bytes(s4);
    if let MessageView::Tlcreate { fid, name, flags, mode, gid } = m {
        let tail4 = u32_le(gid);
        let tail3 = u32_le(mode) + tail4;
        let tail2 = u32_le(flags) + tail3;
        let tail1 = string_bytes(name) + tail2;
        lemma_regroup(u32_le(mode), tail4, rest);
        lemma_regroup(u32_le(flags), tail3, rest);
        lemma_regroup(string_bytes(name), tail2, rest);
        lemma_regroup(u32_le(fid), tail1, rest);
    }
}

/// An identifier, an offset and a count that were taken off the front of
/// `s` give, written out and followed by the rest, `s` again.
proof fn lemma_take_range_bytes(s: Seq<u8>)
    requires
        take_range(s) is Some,
    ensures
        take_range(s) matches Some(((fid, offset, count), rest)) && u32_le(fid) + (u64_le(offset)
            + u32_le(count)) + rest == s,
{
    let ((fid, offset, count), rest) = take_range(s)->0;
    let (_, s1) = take_u32(s)->0;
    let (_, s2) = take_u64(s1)->0;
    lemma_take_u32_bytes(s);
    lemma_take_u64_bytes(s1);
    lemma_take_u32_bytes(s2);
    lemma_regroup(u64_le(offset), u32_le(count), rest);
    lemma_regroup(u32_le(fid), u64_le(offset) + u32_le(count), rest);
}

/// `lemma_take_fields_bytes` for a request to write.
proof fn lemma_take_twrite_bytes(s: Seq<u8>)
    requires
        take_twrite(s) is Some,
    ensures
        take_twrite(s) matches Some((m, rest)) && m is Twrite && counts_fit(m) && payload_bytes(m)
            + rest == s,
{
    let (m, rest) = take_twrite(s)->0;
    let (_, s1) = take_u32(s)->0;
    let (_, s2) = take_u64(s1)->0;
    lemma_take_u32_bytes(s);
    lemma_take_u64_bytes(s1);
    lemma_take_data_bytes(s2);
    if let MessageView::Twrite { fid, offset, data } = m {
        lemma_regroup(u64_le(offset), data_bytes(data), rest);
        lemma_regroup(u32_le(fid), u64_le(offset) + data_bytes(data), rest);
    }
}

/// An identity and a transfer size that were taken off the front of `s`
/// give, written out and followed by the rest, `s` again.
proof fn lemma_take_opened_bytes(s: Seq<u8>)
    requires
        take_opened(s) is Some,
    ensures
        take_opened(s) matches Some(((qid, iounit), rest)) && qid_bytes(qid) + u32_le(iounit)
            + rest == s,
{
    let ((qid, iounit), rest) = take_opened(s)->0;
    let (_, s1) = take_qid(s)->0;
    lemma_take_qid_bytes(s);
    lemma_take_u32_bytes(s1);
    lemma_regroup(qid_bytes(qid), u32_le(iounit), rest);
}

/// `lemma_take_fields_bytes` for the requests.
#[verifier::rlimit(40)]
proof fn lemma_take_request_bytes(opcode: u8, s: Seq<u8>)
    requires
        take_request(opcode, s) is Some,
    ensures
        take_request(opcode, s) matches Some((m, rest)) && opcode_of(m) == opcode
            && strings_valid(m) && counts_fit(m) && payload_bytes(m) + rest == s,
{
    let (m, rest) = take_request(opcode, s)->0;
    if opcode == TLOPEN {
        let (_, s1) = take_u32(s)->0;
        lemma_take_u32_bytes(s);
        lemma_take_u32_bytes(s1);
        if let MessageView::Tlopen { fid, flags } = m {
            lemma_regroup(u32_le(fid), u32_le(flags), rest);
        }
    } else if opcode == TLCREATE {
        lemma_take_tlcreate_bytes(s);
    } else if opcode == TREADDIR {
        lemma_take_range_bytes(s);
    } else if opcode == TATTACH {
        lemma_take_tattach_bytes(s);
    } else if opcode == TWALK {
        lemma_take_twalk_bytes(s);
    } else if opcode == TREAD {
        lemma_take_range_bytes(s);
    } else if opcode == TWRITE {
        lemma_take_twrite_bytes(s);
    } else if opcode == TCLUNK {
        lemma_take_u32_bytes(s);
    }
}

/// `lemma_take_fields_bytes` for the replies.
#[verifier::rlimit(40)]
proof fn lemma_take_reply_bytes(opcode: u8, s: Seq<u8>)
    requires
        take_reply(opcode, s) is Some,
    ensures
        take_reply(opcode, s) matches Some((m, rest)) && opcode_of(m) == opcode
            && strings_valid(m) && counts_fit(m) && payload_bytes(m) + rest == s,
{
    let (m, rest) = take_reply(opcode, s)->0;
    if opcode == RLERROR {
        lemma_take_u32_bytes(s);
    } else if opcode == RLOPEN {
        lemma_take_opened_bytes(s);
    } else if opcode == RLCREATE {
        lemma_take_opened_bytes(s);
    } else if opcode == RREADDIR {
        lemma_take_data_bytes(s);
    } else if opcode == RATTACH {
        lemma_take_qid_bytes(s);
    } else if opcode == RWALK {
        let (n, s1) = take_u16(s)->0;
        lemma_take_u16_bytes(s);
        lemma_take_qids_bytes(s1, n as nat);
        if let MessageView::Rwalk { wqids } = m {
            lemma_regroup(u16_le(n), qids_bytes(wqids), rest);
        }
    } else if opcode == RREAD {
        lemma_take_data_bytes(s);
    } else if opcode == RWRITE {
        lemma_take_u32_bytes(s);
    } else if opcode == RCLUNK {
        assert(payload_bytes(m) + rest =~= s);
    }
}

/// The fields that were taken off the front of `s` are those of a message
/// of the kind asked for, which meets what its strings and counts must meet,
/// and whose bytes followed by the rest are `s` again.
pub proof fn lemma_take_fields_bytes(opcode: u8, s: Seq<u8>)
    requires
        take_fields(opcode, s) is Some,
    ensures
        take_fields(opcode, s) matches Some((m, rest)) && opcode_of(m) == opcode
            && strings_valid(m) && counts_fit(m) && payload_bytes(m) + rest == s,
{
    if request_opcode(opcode) {
        lemma_take_request_bytes(opcode, s);
    } else {
        lemma_take_reply_bytes(opcode, s);
    }
}

/// Bytes stand for at most one message, and a message has only one way to
/// be written: bytes that stand for a message are the bytes of that message.
/// With the round trip this makes reading the exact inverse of writing.
pub proof fn lemma_decode_canonical(bytes: Seq<u8>)
    requires
        decode_of(bytes) is Ok,
    ensures
        decode_of(bytes) matches Ok((tag, m)) && encodable(m) && frame_bytes(tag, m) == bytes,
{
    let (tag, m) = decode_of(bytes)->Ok_0;
    let s1 = bytes.skip(4);
    let s2 = bytes.skip(5);
    let payload = bytes.skip(7);
    lemma_take_u32_bytes(bytes);
    lemma_take_u8_bytes(s1);
    lemma_take_u16_bytes(s2);
    assert(s1.skip(1) =~= s2);
    assert(s2.skip(2) =~= payload);
    lemma_take_fields_bytes(bytes[4], payload);
    assert(payload_bytes(m) + Seq::<u8>::empty() =~= payload_bytes(m));
    assert(le_u32(bytes) == HEADER_LEN + payload.len());
}

} // verus!
