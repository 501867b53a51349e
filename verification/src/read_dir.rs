//! Directory listings: the record that stands for one entry, its bytes on the
//! wire, and the reader that turns the records of a native directory stream
//! into entries.
//!
//! The native stream itself belongs to the host. The host duplicates the
//! descriptor, opens and seeks the stream, reads one raw record at a time and
//! closes the stream; what to make of each outcome is decided here.

use crate::error::Error;
use crate::name::{find_nul, first_nul, has_nul, lemma_first_nul, strip_padding};
use crate::name::{valid_string, P9String, MAX_STRING_LEN};
use crate::wire::{lemma_regroup, lemma_take_string, lemma_take_string_bytes, lemma_take_u64};
use crate::wire::{lemma_take_u64_bytes, lemma_take_u8, lemma_take_u8_bytes};
use crate::wire::{put_string, put_u64, put_u8, string_bytes};
use crate::wire::{take_string, take_u64, take_u8, u64_le, Reader};
use vstd::prelude::*;

verus! {

/// One record of a native directory stream, as the host read it. The name
/// field is the fixed-size field of the record: the name, a nul terminator,
/// and whatever padding follows.
#[derive(Clone, Copy, Debug)]
pub struct NativeEntry<'a> {
    pub ino: u64,
    pub off: i64,
    pub type_: u8,
    pub name: &'a [u8],
}

/// One entry of a directory listing.
#[derive(Clone, Debug, PartialEq, Eq)]
pub struct DirEntry {
    /// Inode number of the entry.
    pub ino: u64,
    /// Where a later reader resumes to get the entries after this one. The
    /// value is the native stream's own and means nothing else.
    pub offset: u64,
    /// Kind of the entry, as the host reports it.
    pub type_: u8,
    /// Name of the entry, without terminator or padding.
    pub name: P9String,
}

/// What a `DirEntry` stands for.
pub struct DirEntryView {
    pub ino: u64,
    pub offset: u64,
    pub type_: u8,
    pub name: Seq<u8>,
}

impl View for DirEntry {
    type V = DirEntryView;

    open spec fn view(&self) -> DirEntryView {
        DirEntryView { ino: self.ino, offset: self.offset, type_: self.type_, name: self.name@ }
    }
}

/// The entry that a native record stands for. A name field without a
/// terminator gives `IoError`; a name longer than the wire format can carry
/// gives `NameTooLong`. The resume offset is the native one, reinterpreted as
/// an unsigned number.
pub open spec fn entry_of(ino: u64, off: i64, type_: u8, name: Seq<u8>) -> Result<
    DirEntryView,
    Error,
> {
    if !has_nul(name) {
        Err(Error::IoError)
    } else if first_nul(name) > MAX_STRING_LEN {
        Err(Error::NameTooLong)
    } else {
        Ok(
            DirEntryView {
                ino,
                offset: off as u64,
                type_,
                name: name.take(first_nul(name)),
            },
        )
    }
}

/// Validates one native record and makes the entry that it stands for.
pub fn entry_from_native(record: &NativeEntry) -> (result: Result<DirEntry, Error>)
    ensures
        match entry_of(record.ino, record.off, record.type_, record.name@) {
            Ok(entry) => result is Ok && result->Ok_0@ == entry,
            Err(e) => result == Err::<DirEntry, Error>(e),
        },
{
    if find_nul(record.name).is_none() {
        return Err(Error::IoError);
    }
    let stripped = strip_padding(record.name);
    proof {
        lemma_first_nul(record.name@);
    }
    match P9String::new(stripped) {
        Ok(name) => Ok(
            DirEntry {
                ino: record.ino,
                offset: #[verifier::truncate]
                (record.off as u64),
                type_: record.type_,
                name,
            },
        ),
        Err(e) => Err(e),
    }
}

/// The bytes of a directory entry on the wire: inode number, resume offset,
/// kind, name.
pub open spec fn entry_bytes(e: DirEntryView) -> Seq<u8> {
    u64_le(e.ino) + (u64_le(e.offset) + (seq![e.type_] + string_bytes(e.name)))
}

/// A directory entry taken off the front of `s`, with what follows it.
pub open spec fn take_entry(s: Seq<u8>) -> Option<(DirEntryView, Seq<u8>)> {
    match take_u64(s) {
        None => None,
        Some((ino, s1)) => match take_u64(s1) {
            None => None,
            Some((offset, s2)) => match take_u8(s2) {
                None => None,
                Some((type_, s3)) => match take_string(s3) {
                    None => None,
                    Some((name, rest)) => Some((DirEntryView { ino, offset, type_, name }, rest)),
                },
            },
        },
    }
}

/// Taking a directory entry off the front of its own bytes gives the entry
/// and whatever followed the bytes.
pub proof fn lemma_entry_round_trip(e: DirEntryView, rest: Seq<u8>)
    requires
        valid_string(e.name),
    ensures
        take_entry(entry_bytes(e) + rest) == Some((e, rest)),
{
    let tail3 = string_bytes(e.name);
    let tail2 = seq![e.type_] + tail3;
    let tail1 = u64_le(e.offset) + tail2;
    lemma_regroup(u64_le(e.ino), tail1, rest);
    lemma_regroup(u64_le(e.offset), tail2, rest);
    lemma_regroup(seq![e.type_], tail3, rest);
    lemma_take_u64(e.ino, tail1 + rest);
    lemma_take_u64(e.offset, tail2 + rest);
    lemma_take_u8(e.type_, tail3 + rest);
    lemma_take_string(e.name, rest);
}

/// An entry that was taken off the front of `s` has a valid name, and its
/// bytes followed by the rest are `s` again: no two byte sequences stand for
/// the same entry.
pub proof fn lemma_entry_bytes_round_trip(s: Seq<u8>)
    requires
        take_entry(s) is Some,
    ensures
        take_entry(s) matches Some((e, rest)) && valid_string(e.name) && entry_bytes(e) + rest
            == s,
{
    let (e, rest) = take_entry(s)->0;
    let s1 = s.skip(8);
    let s2 = s1.skip(8);
    let s3 = s2.skip(1);
    lemma_take_u64_bytes(s);
    lemma_take_u64_bytes(s1);
    lemma_take_u8_bytes(s2);
    lemma_take_string_bytes(s3);
    let tail3 = string_bytes(e.name);
    let tail2 = seq![e.type_] + tail3;
    let tail1 = u64_le(e.offset) + tail2;
    lemma_regroup(seq![e.type_], tail3, rest);
    lemma_regroup(u64_le(e.offset), tail2, rest);
    lemma_regroup(u64_le(e.ino), tail1, rest);
}

/// Appends the bytes of `entry` to `out`.
pub fn put_entry(out: &mut Vec<u8>, entry: &DirEntry)
    ensures
        final(out)@ == old(out)@ + entry_bytes(entry@),
{
    put_u64(out, entry.ino);
    put_u64(out, entry.offset);
    put_u8(out, entry.type_);
    put_string(out, &entry.name);
    assert(out@ =~= old(out)@ + entry_bytes(entry@));
}

/// The number of bytes that `entry` takes on the wire.
pub fn entry_size(entry: &DirEntry) -> (n: usize)
    ensures
        n == entry_bytes(entry@).len(),
        n == 19 + entry@.name.len(),
{
    19 + entry.name.len()
}

/// Takes a directory entry from `reader`, if a whole and valid one is at the
/// front.
pub fn read_entry(reader: &mut Reader) -> (entry: Option<DirEntry>)
    ensures
        match take_entry(old(reader).remaining()) {
            Some((e, rest)) => entry is Some && entry->0@ == e && final(reader).remaining()
                == rest,
            None => entry is None,
        },
{
    let ino = match reader.u64() {
        Some(v) => v,
        None => { return None; },
    };
    let offset = match reader.u64() {
        Some(v) => v,
        None => { return None; },
    };
    let type_ = match reader.u8() {
        Some(v) => v,
        None => { return None; },
    };
    let name = match reader.string() {
        Some(v) => v,
        None => { return None; },
    };
    Some(DirEntry { ino, offset, type_, name })
}

/// Why a directory stream could not be opened, and the descriptor that the
/// host still holds and has to close.
#[derive(Clone, Copy, Debug, PartialEq, Eq)]
pub struct OpenFailure {
    pub error: Error,
    pub close: Option<i32>,
}

/// What a reader knows of its stream.
pub struct ReadDirState {
    /// The duplicate descriptor that the stream owns.
    pub descriptor: i32,
    /// Where a later reader has to start to go on after this one: the offset
    /// that this reader was opened at, or that of the last entry it gave.
    pub offset: u64,
    /// The stream has reported its end.
    pub finished: bool,
}

/// The reader of one open directory stream. It gives each entry once, in the
/// order of the stream, and nothing after the stream has reported its end.
#[derive(Debug, PartialEq, Eq)]
pub struct ReadDir {
    descriptor: i32,
    offset: u64,
    finished: bool,
}

impl View for ReadDir {
    type V = ReadDirState;

    closed spec fn view(&self) -> ReadDirState {
        ReadDirState { descriptor: self.descriptor, offset: self.offset, finished: self.finished }
    }
}

/// What a reader in state `state` answers to `record`, the next record of
/// its stream or `None` at the end of the stream, and the state it is in
/// afterwards. A record that cannot be validated is answered with its error
/// and skipped.
pub open spec fn next_of(state: ReadDirState, record: Option<NativeEntry>) -> (
    ReadDirState,
    Option<Result<DirEntryView, Error>>,
) {
    if state.finished {
        (state, None)
    } else {
        match record {
            None => (ReadDirState { finished: true, ..state }, None),
            Some(r) => match entry_of(r.ino, r.off, r.type_, r.name@) {
                Ok(e) => (ReadDirState { offset: e.offset, ..state }, Some(Ok(e))),
                Err(err) => (state, Some(Err(err))),
            },
        }
    }
}

impl ReadDir {
    /// Return the next directory entry: `record` is what the host read from
    /// the native stream, `None` where the stream is at its end.
    pub fn next(&mut self, record: Option<NativeEntry>) -> (result: Option<
        Result<DirEntry, Error>,
    >)
        ensures
            final(self)@ == next_of(old(self)@, record).0,
            match next_of(old(self)@, record).1 {
                None => result is None,
                Some(Ok(e)) => result matches Some(Ok(entry)) && entry@ == e,
                Some(Err(err)) => result matches Some(Err(e)) && e == err,
            },
    {
        if self.finished {
            return None;
        }
        match record {
            None => {
                self.finished = true;
                None
            },
            Some(r) => match entry_from_native(&r) {
                Ok(entry) => {
                    self.offset = entry.offset;
                    Some(Ok(entry))
                },
                Err(e) => Some(Err(e)),
            },
        }
    }

    /// The duplicate descriptor that the stream owns.
    pub fn descriptor(&self) -> (fd: i32)
        ensures
            fd == self@.descriptor,
    {
        self.descriptor
    }

    /// Where a later reader has to start to go on after this one.
    pub fn offset(&self) -> (offset: u64)
        ensures
            offset == self@.offset,
    {
        self.offset
    }

    /// Whether the stream has reported its end.
    pub fn is_finished(&self) -> (finished: bool)
        ensures
            finished == self@.finished,
    {
        self.finished
    }
}

/// Decides what becomes of an attempt to open a directory stream.
/// `duplicate` is what duplicating the directory's descriptor gave, negative
/// where it failed; `stream_opened` says whether a native stream could then
/// be opened on the duplicate. Where both went well the reader starts at
/// `offset`, to which the host seeks the stream. Otherwise the attempt fails
/// with `IoError`, and a duplicate that was obtained is named for closing.
pub fn read_dir(duplicate: i32, stream_opened: bool, offset: u64) -> (result: Result<
    ReadDir,
    OpenFailure,
>)
    ensures
        result is Ok <==> duplicate >= 0 && stream_opened,
        result matches Ok(reader) ==> reader@ == (ReadDirState {
            descriptor: duplicate,
            offset,
            finished: false,
        }),
        result matches Err(failure) ==> failure.error == Error::IoError && failure.close == (
        if duplicate >= 0 {
            Some(duplicate)
        } else {
            None
        }),
{
    if duplicate < 0 {
        Err(OpenFailure { error: Error::IoError, close: None })
    } else if !stream_opened {
        Err(OpenFailure { error: Error::IoError, close: Some(duplicate) })
    } else {
        Ok(ReadDir { descriptor: duplicate, offset, finished: false })
    }
}

/// The bytes of a listing: those of its entries, one after the other.
pub open spec fn entries_bytes(entries: Seq<DirEntryView>) -> Seq<u8>
    decreases entries.len(),
{
    if entries.len() == 0 {
        Seq::empty()
    } else {
        entries_bytes(entries.drop_last()) + entry_bytes(entries.last())
    }
}

/// What a listing under construction holds.
pub struct BatchView {
    /// The entries that were accepted, in order.
    pub entries: Seq<DirEntryView>,
    /// The most bytes that the listing may take.
    pub limit: nat,
    /// An entry was refused: the listing is closed.
    pub full: bool,
}

/// A listing under construction: the entries that answer one request, as
/// many as fit the number of bytes that the peer asked for.
pub struct Batch {
    data: Vec<u8>,
    limit: usize,
    full: bool,
    resume: Option<u64>,
    entries: Ghost<Seq<DirEntryView>>,
}

impl View for Batch {
    type V = BatchView;

    closed spec fn view(&self) -> BatchView {
        BatchView { entries: self.entries@, limit: self.limit as nat, full: self.full }
    }
}

/// The offset at which a listing goes on after the entries `entries`: that
/// of the last of them, if there is one.
pub open spec fn resume_of(entries: Seq<DirEntryView>) -> Option<u64> {
    if entries.len() == 0 {
        None
    } else {
        Some(entries.last().offset)
    }
}

/// What becomes of a listing when `entry` is offered to it. The entry is
/// accepted if the listing is still open and the entry fits. The first entry
/// that does not fit closes the listing: what comes later is refused even if
/// it is smaller, so that the listing is a run of the stream without gaps.
pub open spec fn push_of(batch: BatchView, entry: DirEntryView) -> (BatchView, bool) {
    if !batch.full && entries_bytes(batch.entries).len() + entry_bytes(entry).len()
        <= batch.limit {
        (BatchView { entries: batch.entries.push(entry), ..batch }, true)
    } else {
        (BatchView { full: true, ..batch }, false)
    }
}

impl Batch {
    #[verifier::type_invariant]
    spec fn inv(self) -> bool {
        &&& self.data@ == entries_bytes(self.entries@)
        &&& self.data@.len() <= self.limit
        &&& self.resume == resume_of(self.entries@)
    }

    /// An empty listing that may grow to `limit` bytes.
    pub fn new(limit: u32) -> (batch: Batch)
        ensures
            batch@ == (BatchView { entries: Seq::empty(), limit: limit as nat, full: false }),
    {
        Batch {
            data: Vec::new(),
            limit: limit as usize,
            full: false,
            resume: None,
            entries: Ghost(Seq::empty()),
        }
    }

    /// Offers `entry` to the listing; gives the listing afterwards and
    /// whether the entry was accepted.
    pub fn push(self, entry: &DirEntry) -> (result: (Batch, bool))
        ensures
            result.0@ == push_of(self@, entry@).0,
            result.1 == push_of(self@, entry@).1,
    {
        proof {
            use_type_invariant(&self);
        }
        let ghost before = self;
        let Batch { data, limit, full, resume, entries } = self;
        if full || entry_size(entry) > limit - data.len() {
            return (Batch { data, limit, full: true, resume, entries }, false);
        }
        let mut data = data;
        put_entry(&mut data, entry);
        let ghost grown = entries@.push(entry@);
        assert(grown.drop_last() =~= entries@);
        (
            Batch { data, limit, full, resume: Some(entry.offset), entries: Ghost(grown) },
            true,
        )
    }

    /// The number of bytes of the listing so far.
    pub fn len(&self) -> (n: usize)
        ensures
            n == entries_bytes(self@.entries).len(),
            n <= self@.limit,
    {
        proof {
            use_type_invariant(self);
        }
        self.data.len()
    }

    /// Whether an entry was refused.
    pub fn is_full(&self) -> (full: bool)
        ensures
            full == self@.full,
    {
        self.full
    }

    /// The offset at which a later listing goes on: that of the last entry
    /// accepted, if there is one.
    pub fn resume(&self) -> (offset: Option<u64>)
        ensures
            offset == resume_of(self@.entries),
    {
        proof {
            use_type_invariant(self);
        }
        self.resume
    }

    /// The bytes of the listing.
    pub fn finish(self) -> (bytes: Vec<u8>)
        ensures
            bytes@ == entries_bytes(self@.entries),
            bytes@.len() <= self@.limit,
    {
        proof {
            use_type_invariant(&self);
        }
        self.data
    }
}

/// What a list of entries stands for.
pub open spec fn entries_view(entries: Seq<DirEntry>) -> Seq<DirEntryView> {
    Seq::new(entries.len(), |i: int| entries[i]@)
}

/// The entries of the listing `s`: those whose bytes, one after the other,
/// are `s`. There are none where `s` ends in the middle of an entry or holds
/// a name that is not valid. (What follows an entry is always shorter than
/// what the entry was taken from; the test for it only shows that taking
/// entries comes to an end.)
pub open spec fn entries_of(s: Seq<u8>) -> Option<Seq<DirEntryView>>
    decreases s.len(),
{
    if s.len() == 0 {
        Some(Seq::empty())
    } else {
        match take_entry(s) {
            None => None,
            Some((e, rest)) => if rest.len() < s.len() {
                match entries_of(rest) {
                    None => None,
                    Some(entries) => Some(seq![e] + entries),
                }
            } else {
                None
            },
        }
    }
}

/// The bytes of a listing that is not empty are those of its first entry,
/// then those of the rest.
pub proof fn lemma_entries_bytes_front(entries: Seq<DirEntryView>)
    requires
        entries.len() > 0,
    ensures
        entries_bytes(entries) == entry_bytes(entries[0]) + entries_bytes(entries.skip(1)),
    decreases entries.len(),
{
    if entries.len() == 1 {
        assert(entries.drop_last() =~= Seq::<DirEntryView>::empty());
        assert(entries.skip(1) =~= Seq::<DirEntryView>::empty());
        assert(entries_bytes(entries) =~= entry_bytes(entries[0]) + entries_bytes(entries.skip(1)));
    } else {
        let front = entries.drop_last();
        lemma_entries_bytes_front(front);
        assert(front.skip(1) =~= entries.skip(1).drop_last());
        assert(entries.skip(1).last() == entries.last());
        lemma_regroup(
            entry_bytes(entries[0]),
            entries_bytes(front.skip(1)),
            entry_bytes(entries.last()),
        );
    }
}

/// Taking a listing apart gives the entries that it was made of.
pub proof fn lemma_entries_round_trip(entries: Seq<DirEntryView>)
    requires
        forall|i: int| 0 <= i < entries.len() ==> valid_string(#[trigger] entries[i].name),
    ensures
        entries_of(entries_bytes(entries)) == Some(entries),
    decreases entries.len(),
{
    if entries.len() == 0 {
        assert(entries =~= Seq::<DirEntryView>::empty());
    } else {
        let tail = entries.skip(1);
        lemma_entries_bytes_front(entries);
        lemma_entry_round_trip(entries[0], entries_bytes(tail));
        assert forall|i: int| 0 <= i < tail.len() implies valid_string(
            #[trigger] tail[i].name,
        ) by {
            assert(tail[i] == entries[i + 1]);
        }
        lemma_entries_round_trip(tail);
        assert(seq![entries[0]] + tail =~= entries);
    }
}

/// Takes the listing `bytes` apart into its entries, if it is a listing.
pub fn read_entries(bytes: &[u8]) -> (entries: Option<Vec<DirEntry>>)
    ensures
        match entries_of(bytes@) {
            Some(es) => entries is Some && entries_view(entries->0@) == es,
            None => entries is None,
        },
{
    let mut reader = Reader::new(bytes);
    let mut out: Vec<DirEntry> = Vec::new();
    assert(entries_view(out@) =~= Seq::<DirEntryView>::empty());
    assert(forall|es: Seq<DirEntryView>| #[trigger] (Seq::<DirEntryView>::empty() + es) =~= es);
    while reader.left() > 0
        invariant
            entries_of(bytes@) == match entries_of(reader.remaining()) {
                Some(es) => Some(entries_view(out@) + es),
                None => None,
            },
        decreases reader.remaining().len(),
    {
        let ghost before = reader.remaining();
        let ghost acc = entries_view(out@);
        match read_entry(&mut reader) {
            None => { return None; },
            Some(entry) => {
                proof {
                    lemma_entry_bytes_round_trip(before);
                }
                out.push(entry);
                proof {
                    let grown = entries_view(out@);
                    assert(grown =~= acc.push(entry@));
                    assert(forall|es: Seq<DirEntryView>| #[trigger]
                        (grown + es) =~= acc + (seq![entry@] + es));
                }
            },
        }
    }
    assert(entries_view(out@) + Seq::<DirEntryView>::empty() =~= entries_view(out@));
    Some(out)
}

} // verus!
