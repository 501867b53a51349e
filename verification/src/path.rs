//! Paths below the exported root.
//!
//! A path is the list of the names that lead from the root to an object. It
//! holds real names only: no empty name, no name with a separator in it, and
//! neither `.` nor `..`. A path therefore cannot point outside the root,
//! whatever names a peer sends: a step that would is refused before anything
//! is asked of the host.

use crate::name::{names_view, valid_string, P9String};
use vstd::prelude::*;

verus! {

/// The byte that separates names in a native path.
pub const SEPARATOR: u8 = 47;

/// The byte of which the names `.` and `..` are made.
pub const DOT: u8 = 46;

/// The name `.`, which stands for the directory itself.
pub open spec fn is_dot(name: Seq<u8>) -> bool {
    name == seq![DOT]
}

/// The name `..`, which stands for the parent directory.
pub open spec fn is_dot_dot(name: Seq<u8>) -> bool {
    name == seq![DOT, DOT]
}

/// A name that can stand in a path: a string of the wire format that is not
/// empty, holds no separator, and is neither `.` nor `..`.
pub open spec fn plain_name(name: Seq<u8>) -> bool {
    &&& valid_string(name)
    &&& name.len() > 0
    &&& forall|i: int| 0 <= i < name.len() ==> name[i] != SEPARATOR
    &&& !is_dot(name)
    &&& !is_dot_dot(name)
}

/// Every name of the path is a real name: the path stays below the root.
pub open spec fn contained(path: Seq<Seq<u8>>) -> bool {
    forall|i: int| 0 <= i < path.len() ==> plain_name(#[trigger] path[i])
}

/// Where one step by `name` leads from `path`, if the step is allowed.
/// `.` leads nowhere else, `..` leads to the parent, and a real name leads to
/// the child of that name. There is no step by `..` at the root, which would
/// leave the exported tree, nor by an empty name or one with a separator.
pub open spec fn step_path(path: Seq<Seq<u8>>, name: Seq<u8>) -> Option<Seq<Seq<u8>>> {
    if is_dot(name) {
        Some(path)
    } else if is_dot_dot(name) {
        if path.len() == 0 {
            None
        } else {
            Some(path.drop_last())
        }
    } else if plain_name(name) {
        Some(path.push(name))
    } else {
        None
    }
}

/// The path as the host writes it, relative to the root: the names with a
/// separator between them, and nothing for the root itself.
pub open spec fn joined(path: Seq<Seq<u8>>) -> Seq<u8>
    decreases path.len(),
{
    if path.len() == 0 {
        Seq::empty()
    } else if path.len() == 1 {
        path[0]
    } else {
        joined(path.drop_last()) + seq![SEPARATOR] + path.last()
    }
}

/// A step from a path below the root leads to a path below the root.
pub proof fn lemma_step_contained(path: Seq<Seq<u8>>, name: Seq<u8>)
    requires
        contained(path),
    ensures
        step_path(path, name) matches Some(next) ==> contained(next),
{
}

/// Whether `name` is a real name.
pub fn is_plain_name(name: &P9String) -> (plain: bool)
    ensures
        plain == plain_name(name@),
{
    let bytes = name.as_bytes();
    if bytes.len() == 0 {
        return false;
    }
    if bytes.len() == 1 && bytes[0] == DOT {
        assert(name@ =~= seq![DOT]);
        return false;
    }
    if bytes.len() == 2 && bytes[0] == DOT && bytes[1] == DOT {
        assert(name@ =~= seq![DOT, DOT]);
        return false;
    }
    let mut i: usize = 0;
    while i < bytes.len()
        invariant
            i <= bytes.len(),
            bytes@ == name@,
            forall|j: int| 0 <= j < i ==> bytes@[j] != SEPARATOR,
        decreases bytes.len() - i,
    {
        if bytes[i] == SEPARATOR {
            assert(name@[i as int] == SEPARATOR);
            return false;
        }
        i += 1;
    }
    true
}

/// A path below the exported root.
#[derive(Debug, PartialEq, Eq)]
pub struct Path {
    names: Vec<P9String>,
}

impl View for Path {
    type V = Seq<Seq<u8>>;

    closed spec fn view(&self) -> Seq<Seq<u8>> {
        names_view(self.names@)
    }
}

impl Path {
    #[verifier::type_invariant]
    spec fn inv(self) -> bool {
        contained(names_view(self.names@))
    }

    /// The path of the root itself.
    pub fn root() -> (path: Path)
        ensures
            path@ == Seq::<Seq<u8>>::empty(),
    {
        let names: Vec<P9String> = Vec::new();
        assert(names_view(names@) =~= Seq::<Seq<u8>>::empty());
        Path { names }
    }

    /// The number of names of the path.
    pub fn depth(&self) -> (n: usize)
        ensures
            n == self@.len(),
            contained(self@),
    {
        proof {
            use_type_invariant(self);
        }
        self.names.len()
    }

    /// The name at position `i`, counted from the root, if the path is that
    /// long.
    pub fn name(&self, i: usize) -> (name: Option<&P9String>)
        ensures
            name is Some <==> i < self@.len(),
            name matches Some(n) ==> n@ == self@[i as int] && plain_name(n@),
    {
        proof {
            use_type_invariant(self);
        }
        if i < self.names.len() {
            Some(&self.names[i])
        } else {
            None
        }
    }

    /// The path as the host writes it, relative to the root: the names with
    /// a separator between them.
    pub fn relative(&self) -> (bytes: Vec<u8>)
        ensures
            bytes@ == joined(self@),
    {
        let ghost all = names_view(self.names@);
        let mut out: Vec<u8> = Vec::new();
        let mut i: usize = 0;
        assert(all.take(0) =~= Seq::<Seq<u8>>::empty());
        while i < self.names.len()
            invariant
                i <= self.names.len(),
                all == names_view(self.names@),
                out@ == joined(all.take(i as int)),
            decreases self.names.len() - i,
        {
            if i > 0 {
                out.push(SEPARATOR);
            }
            let name = self.names[i].as_bytes();
            out.extend_from_slice(name);
            proof {
                let longer = all.take(i + 1);
                assert(longer.drop_last() =~= all.take(i as int));
                assert(longer.last() == all[i as int]);
                if i > 0 {
                    assert(out@ =~= joined(all.take(i as int)) + seq![SEPARATOR] + all[i as int]);
                } else {
                    assert(out@ =~= all[i as int]);
                }
            }
            i += 1;
        }
        assert(all.take(self.names.len() as int) =~= all);
        out
    }

    /// The first `n` names of the path, followed by `last` if there is one.
    fn prefix_with(&self, n: usize, last: Option<&P9String>) -> (path: Path)
        requires
            n <= self@.len(),
            last matches Some(name) ==> plain_name(name@),
        ensures
            path@ == match last {
                Some(name) => self@.take(n as int).push(name@),
                None => self@.take(n as int),
            },
    {
        proof {
            use_type_invariant(self);
        }
        let ghost all = names_view(self.names@);
        let mut names: Vec<P9String> = Vec::new();
        let mut i: usize = 0;
        while i < n
            invariant
                i <= n <= self.names.len(),
                names.len() == i,
                all == names_view(self.names@),
                contained(all),
                names_view(names@) =~= all.take(i as int),
            decreases n - i,
        {
            let ghost before = names_view(names@);
            names.push(self.names[i].duplicate());
            proof {
                let after = names_view(names@);
                assert forall|j: int| 0 <= j < after.len() implies after[j] == all.take(
                    i + 1,
                )[j] by {
                    if j < i {
                        assert(before[j] == all.take(i as int)[j]);
                    }
                }
                assert(after =~= all.take(i + 1));
            }
            i += 1;
        }
        if let Some(name) = last {
            let ghost before = names_view(names@);
            names.push(name.duplicate());
            proof {
                let after = names_view(names@);
                assert forall|j: int| 0 <= j < after.len() implies after[j] == all.take(
                    n as int,
                ).push(name@)[j] by {
                    if j < n {
                        assert(before[j] == all.take(n as int)[j]);
                    }
                }
                assert(after =~= all.take(n as int).push(name@));
            }
        }
        Path { names }
    }

    /// A second path with the same names.
    pub fn duplicate(&self) -> (copy: Path)
        ensures
            copy@ == self@,
    {
        let copy = self.prefix_with(self.names.len(), None);
        assert(self@.take(self@.len() as int) =~= self@);
        copy
    }

    /// Where one step by `name` leads from this path, if the step is
    /// allowed.
    pub fn step(&self, name: &P9String) -> (next: Option<Path>)
        ensures
            match step_path(self@, name@) {
                Some(p) => next is Some && next->0@ == p,
                None => next is None,
            },
    {
        let bytes = name.as_bytes();
        if bytes.len() == 1 && bytes[0] == DOT {
            assert(name@ =~= seq![DOT]);
            Some(self.duplicate())
        } else if bytes.len() == 2 && bytes[0] == DOT && bytes[1] == DOT {
            assert(name@ =~= seq![DOT, DOT]);
            if self.names.len() == 0 {
                None
            } else {
                Some(self.prefix_with(self.names.len() - 1, None))
            }
        } else if is_plain_name(name) {
            let next = self.prefix_with(self.names.len(), Some(name));
            assert(self@.take(self@.len() as int) =~= self@);
            Some(next)
        } else {
            None
        }
    }

    /// Whether the two paths hold the same names.
    pub fn same_as(&self, other: &Path) -> (same: bool)
        ensures
            same == (self@ == other@),
    {
        if self.names.len() != other.names.len() {
            assert(self@.len() != other@.len());
            return false;
        }
        let mut i: usize = 0;
        while i < self.names.len()
            invariant
                i <= self.names.len(),
                self.names.len() == other.names.len(),
                forall|j: int| 0 <= j < i ==> self@[j] == other@[j],
            decreases self.names.len() - i,
        {
            if !self.names[i].same_as(&other.names[i]) {
                assert(self@[i as int] != other@[i as int]);
                return false;
            }
            i += 1;
        }
        assert(self@ =~= other@);
        true
    }
}

impl Clone for Path {
    fn clone(&self) -> (copy: Path)
        ensures
            copy@ == self@,
    {
        self.duplicate()
    }
}

} // verus!
