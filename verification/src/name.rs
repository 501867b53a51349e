//! Names as the host reports them: a byte field that holds the name, one nul
//! terminator, and possibly more nul bytes as padding.

use crate::error::Error;
use vstd::prelude::*;

verus! {

/// The bytes of `b` are all different from nul.
pub open spec fn nul_free(b: Seq<u8>) -> bool {
    forall|i: int| 0 <= i < b.len() ==> b[i] != 0u8
}

/// `b` holds at least one nul byte.
pub open spec fn has_nul(b: Seq<u8>) -> bool {
    exists|i: int| 0 <= i < b.len() && b[i] == 0u8
}

/// Index of the first nul byte of `b`, or the length of `b` if it has none.
pub open spec fn first_nul(b: Seq<u8>) -> int
    decreases b.len(),
{
    if b.len() == 0 {
        0
    } else if b[0] == 0u8 {
        0
    } else {
        1 + first_nul(b.skip(1))
    }
}

/// `first_nul` is the unique position that has no nul before it and either a
/// nul at it or the end of the sequence.
pub proof fn lemma_first_nul(b: Seq<u8>)
    ensures
        0 <= first_nul(b) <= b.len(),
        nul_free(b.take(first_nul(b))),
        first_nul(b) < b.len() ==> b[first_nul(b)] == 0u8,
        has_nul(b) <==> first_nul(b) < b.len(),
    decreases b.len(),
{
    if b.len() == 0 {
    } else if b[0] == 0u8 {
    } else {
        let rest = b.skip(1);
        lemma_first_nul(rest);
        let p = first_nul(rest);
        let head = b.take(p + 1);
        assert forall|i: int| 0 <= i < head.len() implies #[trigger] head[i] != 0u8 by {
            if i > 0 {
                assert(head[i] == rest.take(p)[i - 1]);
            }
        }
        if p < rest.len() {
            assert(rest[p] == b[p + 1]);
        }
        if has_nul(b) {
            let i = choose|i: int| 0 <= i < b.len() && b[i] == 0u8;
            assert(rest[i - 1] == b[i]);
        }
    }
}

/// The position `p` is the first nul of `b` as soon as it holds a nul and
/// nothing before it does.
pub proof fn lemma_first_nul_is(b: Seq<u8>, p: int)
    requires
        0 <= p < b.len(),
        b[p] == 0u8,
        forall|i: int| 0 <= i < p ==> b[i] != 0u8,
    ensures
        first_nul(b) == p,
{
    lemma_first_nul(b);
    let q = first_nul(b);
    if q < p {
    } else if q > p {
        assert(b.take(q)[p] == b[p]);
    }
}

/// Position of the first nul byte of `b`, if it holds one.
pub fn find_nul(b: &[u8]) -> (pos: Option<usize>)
    ensures
        pos is Some <==> has_nul(b@),
        pos matches Some(p) ==> p == first_nul(b@),
{
    let mut i: usize = 0;
    while i < b.len()
        invariant
            i <= b.len(),
            forall|j: int| 0 <= j < i ==> b@[j] != 0u8,
        decreases b.len() - i,
    {
        if b[i] == 0 {
            proof {
                lemma_first_nul_is(b@, i as int);
            }
            return Some(i);
        }
        i += 1;
    }
    None
}

/// Cuts a nul-padded name field down to the name: the bytes before the first
/// nul byte. A field without any nul byte is a mistake of the caller and is
/// excluded by the precondition; `find_nul` tells the two cases apart.
pub fn strip_padding(b: &[u8]) -> (name: &[u8])
    requires
        has_nul(b@),
    ensures
        name@ == b@.take(first_nul(b@)),
        nul_free(name@),
{
    let pos = find_nul(b);
    proof {
        lemma_first_nul(b@);
    }
    match pos {
        Some(p) => vstd::slice::slice_subrange(b, 0, p),
        None => b,
    }
}

/// The longest string that the wire format can carry: its length field is
/// sixteen bits wide.
pub const MAX_STRING_LEN: usize = 65535;

/// What a string of the wire format may hold: at most `MAX_STRING_LEN` bytes,
/// none of them nul.
pub open spec fn valid_string(s: Seq<u8>) -> bool {
    s.len() <= MAX_STRING_LEN && nul_free(s)
}

/// A string of the wire format. It is not nul-terminated and holds no nul
/// byte; its length fits the sixteen-bit length field.
#[derive(Debug, PartialEq, Eq)]
pub struct P9String {
    bytes: Vec<u8>,
}

impl View for P9String {
    type V = Seq<u8>;

    closed spec fn view(&self) -> Seq<u8> {
        self.bytes@
    }
}

impl P9String {
    #[verifier::type_invariant]
    spec fn inv(self) -> bool {
        valid_string(self.bytes@)
    }

    /// Makes a string of the wire format out of `bytes`. Bytes that are too
    /// many give `NameTooLong`; otherwise a nul byte among them gives
    /// `IoError`.
    pub fn new(bytes: &[u8]) -> (result: Result<P9String, Error>)
        ensures
            result is Ok <==> valid_string(bytes@),
            result matches Ok(s) ==> s@ == bytes@,
            result matches Err(e) ==> e == (if bytes@.len() > MAX_STRING_LEN {
                Error::NameTooLong
            } else {
                Error::IoError
            }),
    {
        if bytes.len() > MAX_STRING_LEN {
            return Err(Error::NameTooLong);
        }
        if find_nul(bytes).is_some() {
            return Err(Error::IoError);
        }
        let mut owned: Vec<u8> = Vec::with_capacity(bytes.len());
        owned.extend_from_slice(bytes);
        Ok(P9String { bytes: owned })
    }

    /// The empty string.
    pub fn empty() -> (s: P9String)
        ensures
            s@ == Seq::<u8>::empty(),
    {
        P9String { bytes: Vec::new() }
    }

    /// The bytes of the string.
    pub fn as_bytes(&self) -> (bytes: &[u8])
        ensures
            bytes@ == self@,
            valid_string(self@),
    {
        proof {
            use_type_invariant(self);
        }
        self.bytes.as_slice()
    }

    /// The number of bytes of the string.
    pub fn len(&self) -> (n: usize)
        ensures
            n == self@.len(),
            n <= MAX_STRING_LEN,
    {
        proof {
            use_type_invariant(self);
        }
        self.bytes.len()
    }

    /// A second string with the same bytes.
    pub fn duplicate(&self) -> (copy: P9String)
        ensures
            copy@ == self@,
    {
        proof {
            use_type_invariant(self);
        }
        let mut owned: Vec<u8> = Vec::with_capacity(self.bytes.len());
        owned.extend_from_slice(self.bytes.as_slice());
        P9String { bytes: owned }
    }

    /// Whether the two strings hold the same bytes.
    pub fn same_as(&self, other: &P9String) -> (same: bool)
        ensures
            same == (self@ == other@),
    {
        bytes_equal(self.bytes.as_slice(), other.bytes.as_slice())
    }
}

/// What a list of strings stands for: the list of their bytes.
pub open spec fn names_view(names: Seq<P9String>) -> Seq<Seq<u8>> {
    Seq::new(names.len(), |i: int| names[i]@)
}

impl Clone for P9String {
    fn clone(&self) -> (copy: P9String)
        ensures
            copy@ == self@,
    {
        self.duplicate()
    }
}

/// Whether two byte strings are equal, byte for byte.
pub fn bytes_equal(a: &[u8], b: &[u8]) -> (same: bool)
    ensures
        same == (a@ == b@),
{
    if a.len() != b.len() {
        return false;
    }
    let mut i: usize = 0;
    while i < a.len()
        invariant
            i <= a.len(),
            a.len() == b.len(),
            forall|j: int| 0 <= j < i ==> a@[j] == b@[j],
        decreases a.len() - i,
    {
        if a[i] != b[i] {
            return false;
        }
        i += 1;
    }
    assert(a@ =~= b@);
    true
}

} // verus!
