//! One connection: its state, its table of identifiers, and what it does
//! with each message.
//!
//! The connection never touches the host. `receive` takes the bytes of one
//! message and says what is to be done: nothing but to send a reply, to
//! perform a request on the host, or to close. For a request the caller does
//! the native work and hands the outcome to the handler of that request,
//! which updates the table and gives the bytes of the reply.

use crate::error::Error;
use crate::fid::{open_fids, released_from, removed, FidTable, Resource, ResourceView};
use crate::decode::{decode, decode_of, is_request_opcode, DecodeError};
use crate::message::{encodable, encode, frame_bytes, opcode, opcode_of, request_opcode};
use crate::message::{lemma_qids_len, Message, MessageView, Qid};
use crate::name::{names_view, P9String};
use crate::path::{contained, is_plain_name, plain_name, Path};
use crate::read_dir::{entries_bytes, resume_of, Batch, BatchView};
use crate::walk::{all_found, follow, lemma_escape_fails_closed, lemma_partial_walk, run_of};
use crate::walk::{start_of, WalkResult, WalkResultView, WalkState, Walker};
use vstd::prelude::*;

verus! {

/// Where a connection stands.
#[derive(Clone, Copy, Debug, PartialEq, Eq, Structural)]
pub enum State {
    /// No attach has succeeded yet: only an attach is served.
    Unattached,
    /// An attach has succeeded: every request is served.
    Attached,
    /// The connection is over: nothing is served any more.
    Closed,
}

/// What a connection holds.
pub struct ServerView {
    pub state: State,
    pub fids: Map<u32, ResourceView>,
}

/// One connection.
pub struct Server {
    state: State,
    fids: FidTable,
}

impl View for Server {
    type V = ServerView;

    closed spec fn view(&self) -> ServerView {
        ServerView { state: self.state, fids: self.fids@ }
    }
}

/// What `receive` tells its caller to do.
#[derive(Debug, PartialEq, Eq)]
pub enum Event {
    /// Perform `request` on the host and call the handler of its kind.
    Request { tag: u16, request: Message },
    /// Send these bytes: the message was answered without the host.
    Reply(Vec<u8>),
    /// The connection is closed. Close these descriptors, which its table
    /// owned, and send nothing.
    Closed { release: Vec<i32> },
}

/// What is to be done with received bytes.
pub enum Verdict {
    /// Perform the request.
    Dispatch(u16, MessageView),
    /// Send a reply.
    Reply(Seq<u8>),
    /// Close the connection.
    Close,
}

/// A message that asks for something, as opposed to one that answers.
pub open spec fn is_request(m: MessageView) -> bool {
    request_opcode(opcode_of(m))
}

/// The bytes of the reply that reports `error` for the request with the tag
/// `tag`.
pub open spec fn error_reply(tag: u16, error: Error) -> Seq<u8> {
    frame_bytes(tag, MessageView::Rlerror { ecode: error.code_spec() })
}

/// What is to be done with `bytes` by a connection in state `state`. A
/// closed connection stays closed. Bytes that are not one well-framed
/// message close the connection. A kind of message that is unknown, or that
/// is no request, is answered with `Unimplemented`, and a request other than
/// an attach before the first attach with `NotAttached`; the connection goes
/// on. Any other request is to be performed.
pub open spec fn verdict_of(state: State, bytes: Seq<u8>) -> Verdict {
    if state == State::Closed {
        Verdict::Close
    } else {
        match decode_of(bytes) {
            Err(DecodeError::Malformed) => Verdict::Close,
            Err(DecodeError::Unimplemented { tag }) => Verdict::Reply(
                error_reply(tag, Error::Unimplemented),
            ),
            Ok((tag, m)) => if !is_request(m) {
                Verdict::Reply(error_reply(tag, Error::Unimplemented))
            } else if state == State::Unattached && !(m is Tattach) {
                Verdict::Reply(error_reply(tag, Error::NotAttached))
            } else {
                Verdict::Dispatch(tag, m)
            },
        }
    }
}

/// What a handler hands back.
#[derive(Debug, PartialEq, Eq)]
pub struct Outcome {
    /// The bytes of the reply, to be sent.
    pub reply: Vec<u8>,
    /// A descriptor that the request set free, to be closed.
    pub close: Option<i32>,
}

/// What a request does: the connection afterwards, the reply, and the
/// descriptor that the request set free.
pub struct Effect {
    pub next: ServerView,
    pub reply: MessageView,
    pub close: Option<i32>,
}

/// The effect of a request that fails with `error`: the connection stays as
/// it is and the reply reports the error.
pub open spec fn fails(v: ServerView, error: Error) -> Effect {
    Effect { next: v, reply: MessageView::Rlerror { ecode: error.code_spec() }, close: None }
}

/// What the resource of a path that was reached by a walk stands for.
pub open spec fn unopened(path: Seq<Seq<u8>>) -> ResourceView {
    ResourceView::Unopened { resolved_path: path }
}

/// The effect of an attach that binds `fid` to the root, whose identity
/// the host reports in `root`. A closed connection cannot be attached; a
/// failure of the host, or an identifier that is bound already, fails the
/// request; else the connection is attached from then on.
pub open spec fn attach_of(v: ServerView, fid: u32, root: Result<Qid, Error>) -> Effect {
    if v.state == State::Closed {
        fails(v, Error::NotAttached)
    } else {
        match root {
            Err(e) => fails(v, e),
            Ok(qid) => if v.fids.contains_key(fid) {
                fails(v, Error::DuplicateFid)
            } else {
                Effect {
                    next: ServerView {
                        state: State::Attached,
                        fids: v.fids.insert(fid, unopened(Seq::empty())),
                    },
                    reply: MessageView::Rattach { qid },
                    close: None,
                }
            },
        }
    }
}

/// The effect of a clunk of `fid`. The identifier is unbound, and the
/// descriptor that its resource owned is set free.
pub open spec fn clunk_of(v: ServerView, fid: u32) -> Effect {
    if v.state != State::Attached {
        fails(v, Error::NotAttached)
    } else {
        match removed(v.fids, fid) {
            Err(e) => fails(v, e),
            Ok(resource) => Effect {
                next: ServerView { fids: v.fids.remove(fid), ..v },
                reply: MessageView::Rclunk,
                close: resource.descriptor(),
            },
        }
    }
}

/// Whether a walk from `fid` that is to bind `newfid` may start. Both
/// identifiers may be the same, which moves the identifier; a different
/// `newfid` must not be bound.
pub open spec fn walk_allowed(v: ServerView, fid: u32, newfid: u32) -> Result<(), Error> {
    if v.state != State::Attached {
        Err(Error::NotAttached)
    } else if !v.fids.contains_key(fid) {
        Err(Error::UnknownFid)
    } else if newfid != fid && v.fids.contains_key(newfid) {
        Err(Error::DuplicateFid)
    } else {
        Ok(())
    }
}

/// The effect of a walk from `fid` that is to bind `newfid` and ended with
/// `result`. A complete walk binds `newfid` to the path reached; where
/// `newfid` is `fid` itself, what `fid` was bound to before is set free. A
/// walk that stopped at a name that does not exist binds nothing; it is
/// answered with the identities found before that name, or with `NotFound`
/// where the first name did not exist. A walk that failed as a whole is
/// answered with its error. More identities than a reply can count fail the
/// request with `IoError`.
pub open spec fn walk_of(v: ServerView, fid: u32, newfid: u32, result: WalkResultView) -> Effect {
    match walk_allowed(v, fid, newfid) {
        Err(e) => fails(v, e),
        Ok(()) => match result {
            WalkResultView::Failed { error } => fails(v, error),
            WalkResultView::Partial { qids } => if qids.len() == 0 {
                fails(v, Error::NotFound)
            } else if qids.len() > u16::MAX {
                fails(v, Error::IoError)
            } else {
                Effect { next: v, reply: MessageView::Rwalk { wqids: qids }, close: None }
            },
            WalkResultView::Complete { path, qids } => if qids.len() > u16::MAX {
                fails(v, Error::IoError)
            } else {
                Effect {
                    next: ServerView { fids: v.fids.insert(newfid, unopened(path)), ..v },
                    reply: MessageView::Rwalk { wqids: qids },
                    close: if newfid == fid {
                        v.fids[fid].descriptor()
                    } else {
                        None
                    },
                }
            },
        },
    }
}

/// What the host reports of an object that it opened.
#[derive(Clone, Copy, Debug, PartialEq, Eq, Structural)]
pub struct Opened {
    /// The descriptor of the open object.
    pub descriptor: i32,
    /// The identity of the object.
    pub qid: Qid,
    /// Whether the object is a directory.
    pub directory: bool,
    /// The largest transfer that the host recommends, or zero.
    pub iounit: u32,
}

/// What the resource of an object stands for that was opened at `path`.
pub open spec fn opened_resource(opened: Opened, path: Seq<Seq<u8>>) -> ResourceView {
    if opened.directory {
        ResourceView::OpenDir { descriptor: opened.descriptor, resolved_path: path, last_offset: 0 }
    } else {
        ResourceView::OpenFile { descriptor: opened.descriptor, resolved_path: path }
    }
}

/// The effect of a request to open `fid`, for which the host reports
/// `opened`. The identifier is bound to the open object, and what it was
/// bound to before is set free. Where the request fails although the host
/// has opened the object, the new descriptor is set free instead.
pub open spec fn open_of(v: ServerView, fid: u32, opened: Result<Opened, Error>) -> Effect {
    let unused = match opened {
        Ok(o) => Some(o.descriptor),
        Err(_) => None,
    };
    if v.state != State::Attached {
        Effect { close: unused, ..fails(v, Error::NotAttached) }
    } else if !v.fids.contains_key(fid) {
        Effect { close: unused, ..fails(v, Error::UnknownFid) }
    } else {
        match opened {
            Err(e) => fails(v, e),
            Ok(o) => Effect {
                next: ServerView {
                    fids: v.fids.insert(fid, opened_resource(o, v.fids[fid].path())),
                    ..v
                },
                reply: MessageView::Rlopen { qid: o.qid, iounit: o.iounit },
                close: v.fids[fid].descriptor(),
            },
        }
    }
}

/// The most bytes of data, or of a listing, that one reply can carry.
pub const MAX_DATA: u32 = 0xffff_ffff - 11;

/// Whether the directory bound to `fid` may be listed, and if so, its
/// descriptor.
pub open spec fn listable(v: ServerView, fid: u32) -> Result<i32, Error> {
    if v.state != State::Attached {
        Err(Error::NotAttached)
    } else if !v.fids.contains_key(fid) {
        Err(Error::UnknownFid)
    } else {
        match v.fids[fid] {
            ResourceView::OpenDir { descriptor, .. } => Ok(descriptor),
            _ => Err(Error::NotADirectory),
        }
    }
}

/// The effect of a request to list the directory bound to `fid`, for which
/// the host reports `listing`. The reply carries the entries of the listing,
/// and the directory remembers the offset at which the listing goes on.
pub open spec fn readdir_of(v: ServerView, fid: u32, listing: Result<BatchView, Error>) -> Effect {
    match listable(v, fid) {
        Err(e) => fails(v, e),
        Ok(_) => match listing {
            Err(e) => fails(v, e),
            Ok(batch) => if entries_bytes(batch.entries).len() > MAX_DATA {
                fails(v, Error::IoError)
            } else {
                Effect {
                    next: ServerView {
                        fids: v.fids.insert(
                            fid,
                            ResourceView::OpenDir {
                                descriptor: v.fids[fid]->OpenDir_descriptor,
                                resolved_path: v.fids[fid].path(),
                                last_offset: match resume_of(batch.entries) {
                                    Some(offset) => offset,
                                    None => v.fids[fid]->last_offset,
                                },
                            },
                        ),
                        ..v
                    },
                    reply: MessageView::Rreaddir { data: entries_bytes(batch.entries) },
                    close: None,
                }
            },
        },
    }
}

/// Whether data may be read from, or written to, what `fid` is bound to,
/// and if so, the descriptor of the open file. What is not an open file
/// gives `IoError`.
pub open spec fn transferable(v: ServerView, fid: u32) -> Result<i32, Error> {
    if v.state != State::Attached {
        Err(Error::NotAttached)
    } else if !v.fids.contains_key(fid) {
        Err(Error::UnknownFid)
    } else {
        match v.fids[fid] {
            ResourceView::OpenFile { descriptor, .. } => Ok(descriptor),
            _ => Err(Error::IoError),
        }
    }
}

/// The effect of a request to read from `fid`, for which the host reports
/// `data`. The connection stays as it is; the reply carries the data.
pub open spec fn read_of(v: ServerView, fid: u32, data: Result<Seq<u8>, Error>) -> Effect {
    match transferable(v, fid) {
        Err(e) => fails(v, e),
        Ok(_) => match data {
            Err(e) => fails(v, e),
            Ok(d) => if d.len() > MAX_DATA {
                fails(v, Error::IoError)
            } else {
                Effect { next: v, reply: MessageView::Rread { data: d }, close: None }
            },
        },
    }
}

/// The effect of a request to write to `fid`, for which the host reports
/// that it wrote `written` bytes. The connection stays as it is; the reply
/// carries the count.
pub open spec fn write_of(v: ServerView, fid: u32, written: Result<u32, Error>) -> Effect {
    match transferable(v, fid) {
        Err(e) => fails(v, e),
        Ok(_) => match written {
            Err(e) => fails(v, e),
            Ok(count) => Effect { next: v, reply: MessageView::Rwrite { count }, close: None },
        },
    }
}

/// Whether a file called `name` may be created in what `fid` is bound to,
/// and if so, the path of the new file. A name that is not a real name,
/// which could lead out of the directory, gives `PermissionDenied`.
pub open spec fn creatable(v: ServerView, fid: u32, name: Seq<u8>) -> Result<Seq<Seq<u8>>, Error> {
    if v.state != State::Attached {
        Err(Error::NotAttached)
    } else if !v.fids.contains_key(fid) {
        Err(Error::UnknownFid)
    } else if !plain_name(name) {
        Err(Error::PermissionDenied)
    } else {
        Ok(v.fids[fid].path().push(name))
    }
}

/// The effect of a request to create `name` in the directory bound to
/// `fid`, for which the host reports `opened`. The identifier is bound to the
/// new file, open, and what it was bound to before is set free. Where the
/// request fails although the host has opened the file, the new descriptor
/// is set free instead.
pub open spec fn create_of(
    v: ServerView,
    fid: u32,
    name: Seq<u8>,
    opened: Result<Opened, Error>,
) -> Effect {
    let unused = match opened {
        Ok(o) => Some(o.descriptor),
        Err(_) => None,
    };
    match creatable(v, fid, name) {
        Err(e) => Effect { close: unused, ..fails(v, e) },
        Ok(target) => match opened {
            Err(e) => fails(v, e),
            Ok(o) => Effect {
                next: ServerView { fids: v.fids.insert(fid, opened_resource(o, target)), ..v },
                reply: MessageView::Rlcreate { qid: o.qid, iounit: o.iounit },
                close: v.fids[fid].descriptor(),
            },
        },
    }
}

/// A clunk of an identifier that is not bound is answered with `UnknownFid`,
/// and so is a second clunk of an identifier that was just clunked.
pub proof fn lemma_clunk_twice(v: ServerView, fid: u32)
    requires
        v.state == State::Attached,
    ensures
        !v.fids.contains_key(fid) ==> clunk_of(v, fid) == fails(v, Error::UnknownFid),
        clunk_of(clunk_of(v, fid).next, fid) == fails(clunk_of(v, fid).next, Error::UnknownFid),
{
}

/// Before the first attach nothing but an attach is served: every other
/// request is answered with `NotAttached` and changes nothing. The same
/// holds of a closed connection, which cannot be attached either.
pub proof fn lemma_not_attached(
    v: ServerView,
    fid: u32,
    newfid: u32,
    name: Seq<u8>,
    walked: WalkResultView,
    opened: Result<Opened, Error>,
    listing: Result<BatchView, Error>,
    data: Result<Seq<u8>, Error>,
    written: Result<u32, Error>,
)
    requires
        v.state != State::Attached,
    ensures
        clunk_of(v, fid) == fails(v, Error::NotAttached),
        walk_of(v, fid, newfid, walked) == fails(v, Error::NotAttached),
        open_of(v, fid, opened).next == v,
        open_of(v, fid, opened).reply == fails(v, Error::NotAttached).reply,
        create_of(v, fid, name, opened).next == v,
        create_of(v, fid, name, opened).reply == fails(v, Error::NotAttached).reply,
        readdir_of(v, fid, listing) == fails(v, Error::NotAttached),
        read_of(v, fid, data) == fails(v, Error::NotAttached),
        write_of(v, fid, written) == fails(v, Error::NotAttached),
        v.state == State::Closed ==> attach_of(v, fid, Ok(Qid { type_: 0, version: 0, path: 0 }))
            == fails(v, Error::NotAttached),
{
}

/// No request opens a connection that is closed, and only an attach that
/// succeeds takes a connection out of the state it is in.
pub proof fn lemma_states(
    v: ServerView,
    fid: u32,
    newfid: u32,
    name: Seq<u8>,
    root: Result<Qid, Error>,
    walked: WalkResultView,
    opened: Result<Opened, Error>,
    listing: Result<BatchView, Error>,
)
    ensures
        clunk_of(v, fid).next.state == v.state,
        walk_of(v, fid, newfid, walked).next.state == v.state,
        open_of(v, fid, opened).next.state == v.state,
        create_of(v, fid, name, opened).next.state == v.state,
        readdir_of(v, fid, listing).next.state == v.state,
        attach_of(v, fid, root).next.state == v.state || (v.state == State::Unattached
            && attach_of(v, fid, root).next.state == State::Attached),
{
}

/// A connection that is not attached holds nothing: before the first
/// attach no identifier is bound, and after the connection was closed none
/// is left.
pub open spec fn settled(v: ServerView) -> bool {
    v.state != State::Attached ==> v.fids == Map::<u32, ResourceView>::empty()
}

/// A new connection holds nothing while it is not attached, and no request
/// changes that.
pub proof fn lemma_settled(
    v: ServerView,
    fid: u32,
    newfid: u32,
    name: Seq<u8>,
    root: Result<Qid, Error>,
    walked: WalkResultView,
    opened: Result<Opened, Error>,
    listing: Result<BatchView, Error>,
)
    requires
        settled(v),
    ensures
        settled(ServerView { state: State::Unattached, fids: Map::empty() }),
        settled(ServerView { state: State::Closed, fids: Map::empty() }),
        settled(attach_of(v, fid, root).next),
        settled(clunk_of(v, fid).next),
        settled(walk_of(v, fid, newfid, walked).next),
        settled(open_of(v, fid, opened).next),
        settled(create_of(v, fid, name, opened).next),
        settled(readdir_of(v, fid, listing).next),
{
}

/// A walk request whose name number `qids.len() + 1` does not exist, after
/// names that the host all found, binds nothing. It is answered with the
/// identities of the objects found before that name, or with `NotFound`
/// where the first name did not exist.
pub proof fn lemma_walk_request_partial(
    v: ServerView,
    fid: u32,
    newfid: u32,
    names: Seq<Seq<u8>>,
    qids: Seq<Qid>,
)
    requires
        walk_allowed(v, fid, newfid) is Ok,
        qids.len() < names.len() <= u16::MAX,
        follow(v.fids[fid].path(), names.take(qids.len() as int + 1)) is Some,
    ensures
        run_of(
            start_of(v.fids[fid].path(), names),
            all_found(qids).push(Err(Error::NotFound)),
        ) matches WalkState::Done(result) && walk_of(v, fid, newfid, result) == (if qids.len()
            == 0 {
            fails(v, Error::NotFound)
        } else {
            Effect { next: v, reply: MessageView::Rwalk { wqids: qids }, close: None }
        }),
{
    lemma_partial_walk(v.fids[fid].path(), names, qids);
}

/// A walk request that would leave the exported tree binds nothing and is
/// answered with `PermissionDenied`, however many names the host found
/// before: be it that a step is not allowed, or that the host answers that a
/// resolution would leave the tree.
pub proof fn lemma_walk_request_escape(
    v: ServerView,
    fid: u32,
    newfid: u32,
    names: Seq<Seq<u8>>,
    qids: Seq<Qid>,
)
    requires
        walk_allowed(v, fid, newfid) is Ok,
        qids.len() < names.len(),
        follow(v.fids[fid].path(), names.take(qids.len() as int)) is Some,
    ensures
        ({
            let answers = if follow(v.fids[fid].path(), names.take(qids.len() as int + 1))
                is None {
                all_found(qids)
            } else {
                all_found(qids).push(Err(Error::PermissionDenied))
            };
            run_of(start_of(v.fids[fid].path(), names), answers) matches WalkState::Done(result)
                && walk_of(v, fid, newfid, result) == fails(v, Error::PermissionDenied)
        }),
{
    lemma_escape_fails_closed(v.fids[fid].path(), names, qids);
}

/// Every path that the table holds lies below the exported root.
pub open spec fn rooted(v: ServerView) -> bool {
    forall|fid: u32| v.fids.contains_key(fid) ==> contained(#[trigger] v.fids[fid].path())
}

/// No request takes a path that is not below the exported root into the
/// table: where every path of the table lies below the root, and the path
/// that a walk completed at does, every path of the table does afterwards.
pub proof fn lemma_rooted(
    v: ServerView,
    fid: u32,
    newfid: u32,
    name: Seq<u8>,
    root: Result<Qid, Error>,
    walked: WalkResultView,
    opened: Result<Opened, Error>,
    listing: Result<BatchView, Error>,
)
    requires
        rooted(v),
        walked matches WalkResultView::Complete { path, .. } ==> contained(path),
    ensures
        rooted(attach_of(v, fid, root).next),
        rooted(clunk_of(v, fid).next),
        rooted(walk_of(v, fid, newfid, walked).next),
        rooted(open_of(v, fid, opened).next),
        rooted(create_of(v, fid, name, opened).next),
        rooted(readdir_of(v, fid, listing).next),
{
    assert(contained(Seq::<Seq<u8>>::empty()));
    if creatable(v, fid, name) is Ok {
        assert(contained(v.fids[fid].path().push(name)));
    }
}

/// Bytes that are not one well-framed message, be it that they are cut
/// short or that the size they announce is not their number, close the
/// connection, whatever state it was in.
pub proof fn lemma_malformed_closes(state: State, bytes: Seq<u8>)
    requires
        bytes.len() < crate::message::HEADER_LEN || crate::wire::le_u32(bytes) != bytes.len(),
    ensures
        verdict_of(state, bytes) == Verdict::Close,
{
}

/// The bytes of `message` with the tag `tag`, or those of the reply that
/// reports `IoError` where the message has no bytes on the wire.
pub fn reply_bytes(tag: u16, message: &Message) -> (bytes: Vec<u8>)
    ensures
        bytes@ == if encodable(message@) {
            frame_bytes(tag, message@)
        } else {
            error_reply(tag, Error::IoError)
        },
{
    match encode(tag, message) {
        Some(bytes) => bytes,
        None => error_bytes(tag, Error::IoError),
    }
}

/// The bytes of the reply that reports `error` for the request with the tag
/// `tag`.
pub fn error_bytes(tag: u16, error: Error) -> (bytes: Vec<u8>)
    ensures
        bytes@ == error_reply(tag, error),
{
    let message = Message::Rlerror { ecode: error.code() };
    proof {
        crate::wire::lemma_int_sizes();
    }
    match encode(tag, &message) {
        Some(bytes) => bytes,
        None => Vec::new(),
    }
}

impl Server {
    /// A connection on which nothing has been received yet.
    pub fn new() -> (server: Server)
        ensures
            server@ == (ServerView { state: State::Unattached, fids: Map::empty() }),
    {
        Server { state: State::Unattached, fids: FidTable::new() }
    }

    /// Where the connection stands.
    pub fn state(&self) -> (state: State)
        ensures
            state == self@.state,
    {
        self.state
    }

    /// The table of the connection.
    pub fn fids(&self) -> (fids: &FidTable)
        ensures
            fids@ == self@.fids,
    {
        &self.fids
    }

    /// Closes the connection, as after a failure of the transport, and hands
    /// out the descriptors that its table owned.
    pub fn shutdown(&mut self) -> (release: Vec<i32>)
        ensures
            final(self)@ == (ServerView { state: State::Closed, fids: Map::empty() }),
            released_from(old(self)@.fids, release@),
            release@.len() == open_fids(old(self)@.fids).len(),
    {
        self.state = State::Closed;
        self.fids.drain()
    }

    /// Takes the bytes of one message and says what is to be done with it.
    pub fn receive(&mut self, bytes: &[u8]) -> (event: Event)
        ensures
            match verdict_of(old(self)@.state, bytes@) {
                Verdict::Dispatch(tag, m) => {
                    &&& event matches Event::Request { tag: t, request }
                    &&& t == tag
                    &&& request@ == m
                    &&& final(self)@ == old(self)@
                },
                Verdict::Reply(reply) => {
                    &&& event matches Event::Reply(b)
                    &&& b@ == reply
                    &&& final(self)@ == old(self)@
                },
                Verdict::Close => {
                    &&& event matches Event::Closed { release }
                    &&& final(self)@ == (ServerView { state: State::Closed, fids: Map::empty() })
                    &&& released_from(old(self)@.fids, release@)
                    &&& release@.len() == open_fids(old(self)@.fids).len()
                },
            },
    {
        if self.state == State::Closed {
            return Event::Closed { release: self.shutdown() };
        }
        match decode(bytes) {
            Err(DecodeError::Malformed) => Event::Closed { release: self.shutdown() },
            Err(DecodeError::Unimplemented { tag }) => Event::Reply(
                error_bytes(tag, Error::Unimplemented),
            ),
            Ok((tag, request)) => {
                let attach = match &request {
                    Message::Tattach { .. } => true,
                    _ => false,
                };
                let asks = is_request_opcode(opcode(&request));
                if !asks {
                    Event::Reply(error_bytes(tag, Error::Unimplemented))
                } else if self.state == State::Unattached && !attach {
                    Event::Reply(error_bytes(tag, Error::NotAttached))
                } else {
                    Event::Request { tag, request }
                }
            },
        }
    }

    /// What `fid` is bound to, on a connection that is attached.
    pub fn lookup(&self, fid: u32) -> (result: Result<&Resource, Error>)
        ensures
            result is Ok <==> self@.state == State::Attached && self@.fids.contains_key(fid),
            result matches Ok(r) ==> r@ == self@.fids[fid] && contained(r@.path()),
            result matches Err(e) ==> e == (if self@.state != State::Attached {
                Error::NotAttached
            } else {
                Error::UnknownFid
            }),
    {
        if self.state != State::Attached {
            return Err(Error::NotAttached);
        }
        self.fids.get(fid)
    }

    /// The reply to a request that failed.
    fn fail(&self, tag: u16, error: Error) -> (outcome: Outcome)
        ensures
            outcome.reply@ == frame_bytes(tag, fails(self@, error).reply),
            outcome.close == fails(self@, error).close,
    {
        Outcome { reply: error_bytes(tag, error), close: None }
    }

    /// Serves an attach: `root` is the identity of the root of the exported
    /// tree, as the host reports it.
    pub fn attach(&mut self, tag: u16, fid: u32, root: Result<Qid, Error>) -> (outcome: Outcome)
        ensures
            final(self)@ == attach_of(old(self)@, fid, root).next,
            outcome.reply@ == frame_bytes(tag, attach_of(old(self)@, fid, root).reply),
            outcome.close == attach_of(old(self)@, fid, root).close,
    {
        if self.state == State::Closed {
            return self.fail(tag, Error::NotAttached);
        }
        let qid = match root {
            Ok(qid) => qid,
            Err(e) => { return self.fail(tag, e); },
        };
        match self.fids.insert(fid, Resource::Unopened { resolved_path: Path::root() }) {
            Err(_) => self.fail(tag, Error::DuplicateFid),
            Ok(()) => {
                self.state = State::Attached;
                let message = Message::Rattach { qid };
                proof {
                    crate::wire::lemma_int_sizes();
                }
                Outcome { reply: reply_bytes(tag, &message), close: None }
            },
        }
    }

    /// Serves a clunk.
    pub fn clunk(&mut self, tag: u16, fid: u32) -> (outcome: Outcome)
        ensures
            final(self)@ == clunk_of(old(self)@, fid).next,
            outcome.reply@ == frame_bytes(tag, clunk_of(old(self)@, fid).reply),
            outcome.close == clunk_of(old(self)@, fid).close,
    {
        if self.state != State::Attached {
            return self.fail(tag, Error::NotAttached);
        }
        match self.fids.remove(fid) {
            Err(e) => {
                assert(self@.fids =~= old(self)@.fids);
                self.fail(tag, e)
            },
            Ok(resource) => Outcome {
                reply: reply_bytes(tag, &Message::Rclunk),
                close: resource.descriptor(),
            },
        }
    }

    /// Starts the walk that a request asks for, if it may start.
    pub fn begin_walk(&self, fid: u32, newfid: u32, names: Vec<P9String>) -> (result: Result<
        Walker,
        Error,
    >)
        ensures
            match walk_allowed(self@, fid, newfid) {
                Ok(()) => result is Ok && result->Ok_0@ == start_of(
                    self@.fids[fid].path(),
                    names_view(names@),
                ),
                Err(e) => result matches Err(error) && error == e,
            },
    {
        if self.state != State::Attached {
            return Err(Error::NotAttached);
        }
        let base = match self.fids.get(fid) {
            Ok(resource) => resource.path().duplicate(),
            Err(e) => { return Err(e); },
        };
        if newfid != fid && self.fids.contains(newfid) {
            return Err(Error::DuplicateFid);
        }
        Ok(Walker::start(base, names))
    }

    /// Serves a walk that has ended.
    pub fn finish_walk(&mut self, tag: u16, fid: u32, newfid: u32, result: WalkResult) -> (outcome:
        Outcome)
        ensures
            final(self)@ == walk_of(old(self)@, fid, newfid, result@).next,
            outcome.reply@ == frame_bytes(tag, walk_of(old(self)@, fid, newfid, result@).reply),
            outcome.close == walk_of(old(self)@, fid, newfid, result@).close,
    {
        if self.state != State::Attached {
            return self.fail(tag, Error::NotAttached);
        }
        if !self.fids.contains(fid) {
            return self.fail(tag, Error::UnknownFid);
        }
        if newfid != fid && self.fids.contains(newfid) {
            return self.fail(tag, Error::DuplicateFid);
        }
        match result {
            WalkResult::Failed { error } => self.fail(tag, error),
            WalkResult::Partial { qids } => {
                if qids.len() == 0 {
                    self.fail(tag, Error::NotFound)
                } else if qids.len() > 0xffff {
                    self.fail(tag, Error::IoError)
                } else {
                    proof {
                        lemma_qids_len(qids@);
                        crate::wire::lemma_int_sizes();
                    }
                    Outcome {
                        reply: reply_bytes(tag, &Message::Rwalk { wqids: qids }),
                        close: None,
                    }
                }
            },
            WalkResult::Complete { path, qids } => {
                if qids.len() > 0xffff {
                    return self.fail(tag, Error::IoError);
                }
                let bound = Resource::Unopened { resolved_path: path };
                let close = if newfid == fid {
                    match self.fids.replace(fid, bound) {
                        Ok(previous) => previous.descriptor(),
                        Err(_) => None,
                    }
                } else {
                    match self.fids.insert(newfid, bound) {
                        Ok(()) => None,
                        Err(_) => None,
                    }
                };
                proof {
                    lemma_qids_len(qids@);
                    crate::wire::lemma_int_sizes();
                }
                Outcome { reply: reply_bytes(tag, &Message::Rwalk { wqids: qids }), close }
            },
        }
    }

    /// Serves a request to open `fid`: `opened` is what the host reports of
    /// its attempt to open the object at the path that `fid` is bound to.
    pub fn open(&mut self, tag: u16, fid: u32, opened: Result<Opened, Error>) -> (outcome: Outcome)
        ensures
            final(self)@ == open_of(old(self)@, fid, opened).next,
            outcome.reply@ == frame_bytes(tag, open_of(old(self)@, fid, opened).reply),
            outcome.close == open_of(old(self)@, fid, opened).close,
    {
        let unused = match opened {
            Ok(o) => Some(o.descriptor),
            Err(_) => None,
        };
        if self.state != State::Attached {
            return Outcome { reply: error_bytes(tag, Error::NotAttached), close: unused };
        }
        if !self.fids.contains(fid) {
            return Outcome { reply: error_bytes(tag, Error::UnknownFid), close: unused };
        }
        let o = match opened {
            Ok(o) => o,
            Err(e) => { return self.fail(tag, e); },
        };
        let previous = match self.fids.remove(fid) {
            Ok(previous) => previous,
            Err(_) => { return self.fail(tag, Error::UnknownFid); },
        };
        let close = previous.descriptor();
        let path = previous.into_path();
        let bound = if o.directory {
            Resource::OpenDir { descriptor: o.descriptor, resolved_path: path, last_offset: 0 }
        } else {
            Resource::OpenFile { descriptor: o.descriptor, resolved_path: path }
        };
        let ghost view = bound@;
        let _ = self.fids.insert(fid, bound);
        proof {
            assert(self@.fids =~= old(self)@.fids.insert(fid, view));
            crate::wire::lemma_int_sizes();
        }
        Outcome {
            reply: reply_bytes(tag, &Message::Rlopen { qid: o.qid, iounit: o.iounit }),
            close,
        }
    }

    /// Prepares the listing of the directory bound to `fid` in at most
    /// `count` bytes: gives the descriptor of the directory, which the host
    /// duplicates for its stream, and the empty listing to fill.
    pub fn begin_readdir(&self, fid: u32, count: u32) -> (result: Result<(i32, Batch), Error>)
        ensures
            match listable(self@, fid) {
                Ok(descriptor) => result matches Ok((fd, batch)) && fd == descriptor && batch@ == (
                BatchView {
                    entries: Seq::empty(),
                    limit: if count < MAX_DATA {
                        count as nat
                    } else {
                        MAX_DATA as nat
                    },
                    full: false,
                }),
                Err(e) => result matches Err(error) && error == e,
            },
    {
        if self.state != State::Attached {
            return Err(Error::NotAttached);
        }
        let resource = match self.fids.get(fid) {
            Ok(resource) => resource,
            Err(e) => { return Err(e); },
        };
        match resource {
            Resource::OpenDir { descriptor, .. } => {
                let limit = if count < MAX_DATA {
                    count
                } else {
                    MAX_DATA
                };
                Ok((*descriptor, Batch::new(limit)))
            },
            _ => Err(Error::NotADirectory),
        }
    }

    /// Serves a request to list the directory bound to `fid`: `listing` is
    /// the listing that the host filled, or the reason why it could not.
    pub fn finish_readdir(&mut self, tag: u16, fid: u32, listing: Result<Batch, Error>) -> (outcome:
        Outcome)
        ensures
            final(self)@ == readdir_of(old(self)@, fid, listing_view(listing)).next,
            outcome.reply@ == frame_bytes(
                tag,
                readdir_of(old(self)@, fid, listing_view(listing)).reply,
            ),
            outcome.close == readdir_of(old(self)@, fid, listing_view(listing)).close,
    {
        if self.state != State::Attached {
            return self.fail(tag, Error::NotAttached);
        }
        let listed = match self.fids.get(fid) {
            Err(e) => { return self.fail(tag, e); },
            Ok(Resource::OpenDir { .. }) => true,
            Ok(_) => false,
        };
        if !listed {
            return self.fail(tag, Error::NotADirectory);
        }
        let batch = match listing {
            Ok(batch) => batch,
            Err(e) => { return self.fail(tag, e); },
        };
        if batch.len() > MAX_DATA as usize {
            return self.fail(tag, Error::IoError);
        }
        let resume = batch.resume();
        let data = batch.finish();
        match self.fids.remove(fid) {
            Ok(Resource::OpenDir { descriptor, resolved_path, last_offset }) => {
                let last_offset = match resume {
                    Some(offset) => offset,
                    None => last_offset,
                };
                let bound = Resource::OpenDir { descriptor, resolved_path, last_offset };
                let ghost view = bound@;
                let _ = self.fids.insert(fid, bound);
                proof {
                    assert(self@.fids =~= old(self)@.fids.insert(fid, view));
                    crate::wire::lemma_int_sizes();
                }
                Outcome { reply: reply_bytes(tag, &Message::Rreaddir { data }), close: None }
            },
            _ => {
                proof {
                    assert(false);
                }
                self.fail(tag, Error::IoError)
            },
        }
    }
}

impl Server {
    /// Prepares a transfer of data from or to the file opened on `fid`:
    /// gives the descriptor of the file.
    pub fn begin_transfer(&self, fid: u32) -> (result: Result<i32, Error>)
        ensures
            result == transferable(self@, fid),
    {
        if self.state != State::Attached {
            return Err(Error::NotAttached);
        }
        match self.fids.get(fid) {
            Err(e) => Err(e),
            Ok(Resource::OpenFile { descriptor, .. }) => Ok(*descriptor),
            Ok(_) => Err(Error::IoError),
        }
    }

    /// The most bytes that the host should read for a request that asks for
    /// `count` bytes: no more than one reply can carry.
    pub fn read_limit(count: u32) -> (limit: u32)
        ensures
            limit == if count < MAX_DATA {
                count
            } else {
                MAX_DATA
            },
    {
        if count < MAX_DATA {
            count
        } else {
            MAX_DATA
        }
    }

    /// Serves a request to read from `fid`: `data` is what the host read,
    /// or the reason why it could not.
    pub fn finish_read(&self, tag: u16, fid: u32, data: Result<Vec<u8>, Error>) -> (outcome:
        Outcome)
        ensures
            outcome.reply@ == frame_bytes(tag, read_of(self@, fid, data_view(data)).reply),
            outcome.close == read_of(self@, fid, data_view(data)).close,
    {
        if let Err(e) = self.begin_transfer(fid) {
            return self.fail(tag, e);
        }
        let data = match data {
            Ok(data) => data,
            Err(e) => { return self.fail(tag, e); },
        };
        if data.len() > MAX_DATA as usize {
            return self.fail(tag, Error::IoError);
        }
        proof {
            crate::wire::lemma_int_sizes();
        }
        Outcome { reply: reply_bytes(tag, &Message::Rread { data }), close: None }
    }

    /// Serves a request to write to `fid`: `written` is the number of bytes
    /// that the host wrote, or the reason why it could not.
    pub fn finish_write(&self, tag: u16, fid: u32, written: Result<u32, Error>) -> (outcome:
        Outcome)
        ensures
            outcome.reply@ == frame_bytes(tag, write_of(self@, fid, written).reply),
            outcome.close == write_of(self@, fid, written).close,
    {
        if let Err(e) = self.begin_transfer(fid) {
            return self.fail(tag, e);
        }
        let count = match written {
            Ok(count) => count,
            Err(e) => { return self.fail(tag, e); },
        };
        proof {
            crate::wire::lemma_int_sizes();
        }
        Outcome { reply: reply_bytes(tag, &Message::Rwrite { count }), close: None }
    }

    /// Prepares the creation of `name` in the directory bound to `fid`:
    /// gives the path of the new file, which lies below the exported root.
    pub fn begin_create(&self, fid: u32, name: &P9String) -> (result: Result<Path, Error>)
        ensures
            match creatable(self@, fid, name@) {
                Ok(target) => result is Ok && result->Ok_0@ == target,
                Err(e) => result matches Err(error) && error == e,
            },
    {
        if self.state != State::Attached {
            return Err(Error::NotAttached);
        }
        let resource = match self.fids.get(fid) {
            Ok(resource) => resource,
            Err(e) => { return Err(e); },
        };
        if !is_plain_name(name) {
            return Err(Error::PermissionDenied);
        }
        match resource.path().step(name) {
            Some(target) => Ok(target),
            None => Err(Error::PermissionDenied),
        }
    }

    /// Serves a request to create `name` in the directory bound to `fid`:
    /// `opened` is what the host reports of its attempt to create and open
    /// the file.
    pub fn finish_create(
        &mut self,
        tag: u16,
        fid: u32,
        name: &P9String,
        opened: Result<Opened, Error>,
    ) -> (outcome: Outcome)
        ensures
            final(self)@ == create_of(old(self)@, fid, name@, opened).next,
            outcome.reply@ == frame_bytes(tag, create_of(old(self)@, fid, name@, opened).reply),
            outcome.close == create_of(old(self)@, fid, name@, opened).close,
    {
        let unused = match opened {
            Ok(o) => Some(o.descriptor),
            Err(_) => None,
        };
        let target = match self.begin_create(fid, name) {
            Ok(target) => target,
            Err(e) => { return Outcome { reply: error_bytes(tag, e), close: unused }; },
        };
        let o = match opened {
            Ok(o) => o,
            Err(e) => { return self.fail(tag, e); },
        };
        let bound = if o.directory {
            Resource::OpenDir { descriptor: o.descriptor, resolved_path: target, last_offset: 0 }
        } else {
            Resource::OpenFile { descriptor: o.descriptor, resolved_path: target }
        };
        let close = match self.fids.replace(fid, bound) {
            Ok(previous) => previous.descriptor(),
            Err(_) => None,
        };
        proof {
            crate::wire::lemma_int_sizes();
        }
        Outcome {
            reply: reply_bytes(tag, &Message::Rlcreate { qid: o.qid, iounit: o.iounit }),
            close,
        }
    }
}

/// What the host's report of data that it read stands for.
pub open spec fn data_view(data: Result<Vec<u8>, Error>) -> Result<Seq<u8>, Error> {
    match data {
        Ok(d) => Ok(d@),
        Err(e) => Err(e),
    }
}

/// What the host's report of a listing stands for.
pub open spec fn listing_view(listing: Result<Batch, Error>) -> Result<BatchView, Error> {
    match listing {
        Ok(batch) => Ok(batch@),
        Err(e) => Err(e),
    }
}

} // verus!
