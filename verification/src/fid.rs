//! The table of the identifiers that a peer has bound, and of what each one
//! is bound to.

use crate::error::Error;
use crate::path::{contained, Path};
use std::collections::BTreeMap;
use vstd::prelude::*;

verus! {

broadcast use vstd::std_specs::btree::group_btree_axioms;

/// What an identifier is bound to. A native descriptor is a plain number
/// here; the variant that holds one owns it, and whoever takes the resource
/// out of the table has to close it.
#[derive(Clone, Debug, PartialEq, Eq)]
pub enum Resource {
    /// The result of a walk, not opened.
    Unopened { resolved_path: Path },
    /// An open file.
    OpenFile { descriptor: i32, resolved_path: Path },
    /// An open directory, with the offset at which its listing goes on.
    OpenDir { descriptor: i32, resolved_path: Path, last_offset: u64 },
}

/// What a `Resource` stands for.
pub enum ResourceView {
    Unopened { resolved_path: Seq<Seq<u8>> },
    OpenFile { descriptor: i32, resolved_path: Seq<Seq<u8>> },
    OpenDir { descriptor: i32, resolved_path: Seq<Seq<u8>>, last_offset: u64 },
}

impl ResourceView {
    /// The descriptor that the resource owns, if it owns one.
    pub open spec fn descriptor(self) -> Option<i32> {
        match self {
            ResourceView::Unopened { .. } => None,
            ResourceView::OpenFile { descriptor, .. } => Some(descriptor),
            ResourceView::OpenDir { descriptor, .. } => Some(descriptor),
        }
    }

    /// The path of the object that the resource stands for.
    pub open spec fn path(self) -> Seq<Seq<u8>> {
        match self {
            ResourceView::Unopened { resolved_path } => resolved_path,
            ResourceView::OpenFile { resolved_path, .. } => resolved_path,
            ResourceView::OpenDir { resolved_path, .. } => resolved_path,
        }
    }
}

impl View for Resource {
    type V = ResourceView;

    open spec fn view(&self) -> ResourceView {
        match *self {
            Resource::Unopened { resolved_path } => ResourceView::Unopened {
                resolved_path: resolved_path@,
            },
            Resource::OpenFile { descriptor, resolved_path } => ResourceView::OpenFile {
                descriptor,
                resolved_path: resolved_path@,
            },
            Resource::OpenDir { descriptor, resolved_path, last_offset } => ResourceView::OpenDir {
                descriptor,
                resolved_path: resolved_path@,
                last_offset,
            },
        }
    }
}

impl Resource {
    /// The descriptor that the resource owns, if it owns one.
    pub fn descriptor(&self) -> (fd: Option<i32>)
        ensures
            fd == self@.descriptor(),
    {
        match self {
            Resource::Unopened { .. } => None,
            Resource::OpenFile { descriptor, .. } => Some(*descriptor),
            Resource::OpenDir { descriptor, .. } => Some(*descriptor),
        }
    }

    /// Gives up the resource for its path.
    pub fn into_path(self) -> (path: Path)
        ensures
            path@ == self@.path(),
    {
        match self {
            Resource::Unopened { resolved_path } => resolved_path,
            Resource::OpenFile { resolved_path, .. } => resolved_path,
            Resource::OpenDir { resolved_path, .. } => resolved_path,
        }
    }

    /// The path of the object that the resource stands for. It lies below
    /// the exported root.
    pub fn path(&self) -> (path: &Path)
        ensures
            path@ == self@.path(),
            contained(path@),
    {
        let path = match self {
            Resource::Unopened { resolved_path } => resolved_path,
            Resource::OpenFile { resolved_path, .. } => resolved_path,
            Resource::OpenDir { resolved_path, .. } => resolved_path,
        };
        let _ = path.depth();
        path
    }
}

/// `BTreeMap::pop_first` of the standard library: takes out of the map the
/// entry with the smallest key and returns it, or returns `None` and leaves
/// the map alone where the map is empty.
#[verifier::external_body]
fn pop_first(map: &mut BTreeMap<u32, Resource>) -> (entry: Option<(u32, Resource)>)
    ensures
        match entry {
            Some((key, value)) => {
                &&& old(map)@.contains_key(key)
                &&& value == old(map)@[key]
                &&& final(map)@ == old(map)@.remove(key)
                &&& forall|other: u32| old(map)@.contains_key(other) ==> key <= other
            },
            None => old(map)@ == Map::<u32, Resource>::empty() && final(map)@ == old(map)@,
        },
{
    map.pop_first()
}

/// The identifiers of `table` whose resource owns a descriptor.
pub open spec fn open_fids(table: Map<u32, ResourceView>) -> Set<u32> {
    Set::new(|fid: u32| table.contains_key(fid) && table[fid].descriptor() is Some)
}

/// Each element is smaller than the next.
pub open spec fn strictly_increasing(s: Seq<u32>) -> bool {
    forall|i: int, j: int| 0 <= i < j < s.len() ==> s[i] < s[j]
}

/// `released` holds the descriptors that `table` owns, one for each of the
/// identifiers in `order`; and `order` holds the identifiers of `table` whose
/// resource owns a descriptor, each once, the smallest first.
pub open spec fn releases(
    table: Map<u32, ResourceView>,
    order: Seq<u32>,
    released: Seq<i32>,
) -> bool {
    &&& strictly_increasing(order)
    &&& forall|fid: u32| order.contains(fid) <==> open_fids(table).contains(fid)
    &&& released.len() == order.len()
    &&& forall|i: int|
        0 <= i < order.len() ==> table[#[trigger] order[i]].descriptor() == Some(released[i])
}

/// `released` holds the descriptors that the resources of `table` own: one
/// for each resource that owns one, in the order of the identifiers.
pub open spec fn released_from(table: Map<u32, ResourceView>, released: Seq<i32>) -> bool {
    exists|order: Seq<u32>| releases(table, order, released)
}

/// What unbinding `fid` from `table` hands out: what the identifier was
/// bound to, or `UnknownFid` where it was not bound.
pub open spec fn removed(table: Map<u32, ResourceView>, fid: u32) -> Result<ResourceView, Error> {
    if table.contains_key(fid) {
        Ok(table[fid])
    } else {
        Err(Error::UnknownFid)
    }
}

/// Unbinding an identifier that is not bound fails with `UnknownFid`, and so
/// does unbinding one a second time: an identifier that was unbound stays
/// so until it is bound again.
pub proof fn lemma_remove_twice(table: Map<u32, ResourceView>, fid: u32)
    ensures
        !table.contains_key(fid) ==> removed(table, fid) == Err::<ResourceView, Error>(
            Error::UnknownFid,
        ),
        removed(table.remove(fid), fid) == Err::<ResourceView, Error>(Error::UnknownFid),
{
}

/// The identifiers that are bound, each with its resource.
pub struct FidTable {
    map: BTreeMap<u32, Resource>,
}

impl View for FidTable {
    type V = Map<u32, ResourceView>;

    closed spec fn view(&self) -> Map<u32, ResourceView> {
        self.map@.map_values(|r: Resource| r@)
    }
}

impl FidTable {
    /// A table without any identifier.
    pub fn new() -> (table: FidTable)
        ensures
            table@ == Map::<u32, ResourceView>::empty(),
    {
        let table = FidTable { map: BTreeMap::new() };
        assert(table@ =~= Map::<u32, ResourceView>::empty());
        table
    }

    /// Binds `fid` to `resource`. An identifier that is bound already stays
    /// as it is: the call fails with `DuplicateFid` and hands the resource
    /// back.
    pub fn insert(&mut self, fid: u32, resource: Resource) -> (result: Result<
        (),
        (Error, Resource),
    >)
        ensures
            result is Ok <==> !old(self)@.contains_key(fid),
            result is Ok ==> final(self)@ == old(self)@.insert(fid, resource@),
            result matches Err((e, r)) ==> {
                &&& e == Error::DuplicateFid
                &&& r == resource
                &&& final(self)@ == old(self)@
            },
    {
        if self.map.contains_key(&fid) {
            return Err((Error::DuplicateFid, resource));
        }
        let ghost view = resource@;
        self.map.insert(fid, resource);
        assert(self@ =~= old(self)@.insert(fid, view));
        Ok(())
    }

    /// What `fid` is bound to. The path of any resource in the table lies
    /// below the exported root.
    pub fn get(&self, fid: u32) -> (result: Result<&Resource, Error>)
        ensures
            result is Ok <==> self@.contains_key(fid),
            result matches Ok(r) ==> r@ == self@[fid] && contained(r@.path()),
            result matches Err(e) ==> e == Error::UnknownFid,
    {
        match self.map.get(&fid) {
            Some(r) => {
                let _ = r.path();
                Ok(r)
            },
            None => Err(Error::UnknownFid),
        }
    }

    /// Unbinds `fid` and hands out what it was bound to. The resource, and
    /// with it the descriptor it may own, belongs to the caller from then
    /// on.
    pub fn remove(&mut self, fid: u32) -> (result: Result<Resource, Error>)
        ensures
            match removed(old(self)@, fid) {
                Ok(resource) => result is Ok && result->Ok_0@ == resource,
                Err(e) => result == Err::<Resource, Error>(e),
            },
            final(self)@ == old(self)@.remove(fid),
    {
        match self.map.remove(&fid) {
            Some(r) => {
                assert(self@ =~= old(self)@.remove(fid));
                Ok(r)
            },
            None => {
                assert(self@ =~= old(self)@.remove(fid));
                Err(Error::UnknownFid)
            },
        }
    }

    /// Binds `fid`, which is bound already, to `resource` instead, and hands
    /// out what it was bound to before. An identifier that is not bound stays
    /// so: the call fails with `UnknownFid` and hands the resource back.
    pub fn replace(&mut self, fid: u32, resource: Resource) -> (result: Result<
        Resource,
        (Error, Resource),
    >)
        ensures
            result is Ok <==> old(self)@.contains_key(fid),
            result matches Ok(previous) ==> previous@ == old(self)@[fid] && final(self)@ == old(
                self,
            )@.insert(fid, resource@),
            result matches Err((e, r)) ==> e == Error::UnknownFid && r == resource && final(self)@
                == old(self)@,
    {
        if !self.map.contains_key(&fid) {
            return Err((Error::UnknownFid, resource));
        }
        let ghost view = resource@;
        match self.map.insert(fid, resource) {
            Some(previous) => {
                assert(self@ =~= old(self)@.insert(fid, view));
                Ok(previous)
            },
            None => {
                proof {
                    assert(false);
                }
                Err((Error::UnknownFid, Resource::Unopened { resolved_path: Path::root() }))
            },
        }
    }

    /// Whether `fid` is bound.
    pub fn contains(&self, fid: u32) -> (bound: bool)
        ensures
            bound == self@.contains_key(fid),
    {
        self.map.contains_key(&fid)
    }

    /// The number of identifiers that are bound.
    pub fn len(&self) -> (n: usize)
        ensures
            n == self@.dom().len(),
    {
        assert(self@.dom() =~= self.map@.dom());
        self.map.len()
    }

    /// Empties the table and hands out the descriptors that its resources
    /// owned, one for each resource that owned one, in the order of the
    /// identifiers. They belong to the caller from then on.
    pub fn drain(&mut self) -> (released: Vec<i32>)
        ensures
            final(self)@ == Map::<u32, ResourceView>::empty(),
            released_from(old(self)@, released@),
            released@.len() == open_fids(old(self)@).len(),
    {
        let ghost start = self@;
        let ghost mut order: Seq<u32> = Seq::empty();
        let ghost mut done: Set<u32> = Set::empty();
        let mut released: Vec<i32> = Vec::new();
        assert(self@.dom() =~= self.map@.dom());
        loop
            invariant
                start == old(self)@,
                self@.dom().finite(),
                forall|k: u32| #[trigger]
                    start.contains_key(k) <==> self@.contains_key(k) || done.contains(k),
                forall|k: u32| #[trigger] self@.contains_key(k) ==> self@[k] == start[k],
                forall|d: u32, k: u32| done.contains(d) && self@.contains_key(k) ==> d < k,
                forall|fid: u32|
                    order.contains(fid) <==> done.contains(fid) && start[fid].descriptor() is Some,
                strictly_increasing(order),
                released@.len() == order.len(),
                forall|i: int|
                    0 <= i < order.len() ==> start[#[trigger] order[i]].descriptor() == Some(
                        released@[i],
                    ),
            ensures
                self@ == Map::<u32, ResourceView>::empty(),
                forall|k: u32| start.contains_key(k) ==> done.contains(k),
            decreases self@.dom().len(),
        {
            let ghost before = self@;
            match pop_first(&mut self.map) {
                None => {
                    assert(self@ =~= Map::<u32, ResourceView>::empty());
                    break ;
                },
                Some((fid, resource)) => {
                    assert(self@ =~= before.remove(fid));
                    assert(resource@ == before[fid]);
                    proof {
                        done = done.insert(fid);
                    }
                    if let Some(fd) = resource.descriptor() {
                        released.push(fd);
                        proof {
                            let longer = order.push(fid);
                            assert forall|f: u32| longer.contains(f) <==> done.contains(f)
                                && start[f].descriptor() is Some by {
                                if longer.contains(f) {
                                    let i = choose|i: int| 0 <= i < longer.len() && longer[i] == f;
                                    if i < order.len() {
                                        assert(order.contains(f));
                                    }
                                }
                                if done.contains(f) && start[f].descriptor() is Some {
                                    if f == fid {
                                        assert(longer[order.len() as int] == f);
                                    } else {
                                        assert(order.contains(f));
                                        let i = choose|i: int|
                                            0 <= i < order.len() && order[i] == f;
                                        assert(longer[i] == f);
                                    }
                                }
                            }
                            assert forall|i: int, j: int|
                                0 <= i < j < longer.len() implies longer[i] < longer[j] by {
                                if j == order.len() {
                                    assert(order.contains(order[i]));
                                }
                            }
                            order = longer;
                        }
                    }
                },
            }
        }
        proof {
            assert forall|fid: u32| order.contains(fid) <==> open_fids(start).contains(fid) by {}
            assert(releases(start, order, released@));
            assert(order.no_duplicates());
            order.unique_seq_to_set();
            assert(order.to_set() =~= open_fids(start));
        }
        released
    }
}

} // verus!
