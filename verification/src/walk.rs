//! Walking: resolving a list of names, one after the other, from a path
//! below the exported root.
//!
//! Whether a name exists, and what it names, only the host can tell. The
//! walker says which path the host has to resolve next, takes the host's
//! answer, and decides how the walk goes on. The host resolves the path it is
//! given relative to the root's descriptor, without following symbolic links
//! out of the tree, and answers `PermissionDenied` where the resolution would
//! leave the tree.

use crate::error::Error;
use crate::message::Qid;
use crate::name::{names_view, P9String};
use crate::path::{contained, lemma_step_contained, step_path, Path};
use vstd::prelude::*;

verus! {

/// How a walk ended.
#[derive(Clone, Debug, PartialEq, Eq)]
pub enum WalkResult {
    /// Every name was resolved: the path reached and the identity of the
    /// object behind each name.
    Complete { path: Path, qids: Vec<Qid> },
    /// A name did not exist: the identities of the objects behind the names
    /// before it.
    Partial { qids: Vec<Qid> },
    /// The walk failed as a whole, and nothing of it counts.
    Failed { error: Error },
}

/// What a `WalkResult` stands for.
pub enum WalkResultView {
    Complete { path: Seq<Seq<u8>>, qids: Seq<Qid> },
    Partial { qids: Seq<Qid> },
    Failed { error: Error },
}

impl View for WalkResult {
    type V = WalkResultView;

    open spec fn view(&self) -> WalkResultView {
        match *self {
            WalkResult::Complete { path, qids } => WalkResultView::Complete {
                path: path@,
                qids: qids@,
            },
            WalkResult::Partial { qids } => WalkResultView::Partial { qids: qids@ },
            WalkResult::Failed { error } => WalkResultView::Failed { error },
        }
    }
}

/// Where a walk stands.
pub enum WalkState {
    /// The host has to resolve the first of the names that are left, from
    /// the path reached so far.
    Pending { current: Seq<Seq<u8>>, qids: Seq<Qid>, left: Seq<Seq<u8>> },
    /// The walk is over.
    Done(WalkResultView),
}

/// Where a walk stands that has reached `current` and has `left` to go: it
/// is complete where no name is left, it fails with `PermissionDenied` where
/// there is no step by the next name, and else it waits for the host.
pub open spec fn settle(current: Seq<Seq<u8>>, qids: Seq<Qid>, left: Seq<Seq<u8>>) -> WalkState {
    if left.len() == 0 {
        WalkState::Done(WalkResultView::Complete { path: current, qids })
    } else if step_path(current, left[0]) is None {
        WalkState::Done(WalkResultView::Failed { error: Error::PermissionDenied })
    } else {
        WalkState::Pending { current, qids, left }
    }
}

/// Where a walk by `names` from `base` stands at its start.
pub open spec fn start_of(base: Seq<Seq<u8>>, names: Seq<Seq<u8>>) -> WalkState {
    settle(base, Seq::empty(), names)
}

/// The path that the host has to resolve next, if the walk waits for one.
pub open spec fn target_of(state: WalkState) -> Option<Seq<Seq<u8>>> {
    match state {
        WalkState::Pending { current, left, .. } => step_path(current, left[0]),
        WalkState::Done(_) => None,
    }
}

/// Where a walk stands after the host's answer about the path it waited
/// for. An object that was found is one more name resolved. A name that does
/// not exist ends the walk with what was resolved before. Any other failure,
/// that of a resolution that would leave the tree among them, fails the walk
/// as a whole. A walk that is over stays as it is.
pub open spec fn advance_of(state: WalkState, answer: Result<Qid, Error>) -> WalkState {
    match state {
        WalkState::Done(_) => state,
        WalkState::Pending { current, qids, left } => match answer {
            Ok(qid) => settle(step_path(current, left[0])->0, qids.push(qid), left.skip(1)),
            Err(e) => if e == Error::NotFound {
                WalkState::Done(WalkResultView::Partial { qids })
            } else {
                WalkState::Done(WalkResultView::Failed { error: e })
            },
        },
    }
}

/// Where a walk stands after a run of answers.
pub open spec fn run_of(state: WalkState, answers: Seq<Result<Qid, Error>>) -> WalkState
    decreases answers.len(),
{
    if answers.len() == 0 {
        state
    } else {
        run_of(advance_of(state, answers[0]), answers.skip(1))
    }
}

/// Where the steps by `names`, one after the other, lead from `path`, if
/// each of them is allowed.
pub open spec fn follow(path: Seq<Seq<u8>>, names: Seq<Seq<u8>>) -> Option<Seq<Seq<u8>>>
    decreases names.len(),
{
    if names.len() == 0 {
        Some(path)
    } else {
        match step_path(path, names[0]) {
            None => None,
            Some(next) => follow(next, names.skip(1)),
        }
    }
}

/// The answers of a host that found every object.
pub open spec fn all_found(qids: Seq<Qid>) -> Seq<Result<Qid, Error>> {
    Seq::new(qids.len(), |i: int| Ok::<Qid, Error>(qids[i]))
}

/// A walk in progress.
#[derive(Debug)]
pub struct Walker {
    current: Path,
    target: Option<Path>,
    names: Vec<P9String>,
    next: usize,
    qids: Vec<Qid>,
    failure: Option<Error>,
}

impl View for Walker {
    type V = WalkState;

    closed spec fn view(&self) -> WalkState {
        match self.failure {
            Some(e) => if e == Error::NotFound {
                WalkState::Done(WalkResultView::Partial { qids: self.qids@ })
            } else {
                WalkState::Done(WalkResultView::Failed { error: e })
            },
            None => if self.target is Some {
                WalkState::Pending {
                    current: self.current@,
                    qids: self.qids@,
                    left: names_view(self.names@).skip(self.next as int),
                }
            } else {
                WalkState::Done(
                    WalkResultView::Complete { path: self.current@, qids: self.qids@ },
                )
            },
        }
    }
}

impl Walker {
    #[verifier::type_invariant]
    spec fn inv(self) -> bool {
        &&& self.next <= self.names@.len()
        &&& self.failure is None && self.target is Some ==> {
            &&& self.next < self.names@.len()
            &&& step_path(self.current@, self.names@[self.next as int]@) == Some(self.target->0@)
        }
    }

    /// The walker that has reached `current` with `next` names behind it.
    fn settled(current: Path, names: Vec<P9String>, next: usize, qids: Vec<Qid>) -> (w: Walker)
        requires
            next <= names@.len(),
        ensures
            w@ == settle(current@, qids@, names_view(names@).skip(next as int)),
    {
        if next == names.len() {
            Walker { current, target: None, names, next, qids, failure: None }
        } else {
            assert(names_view(names@).skip(next as int)[0] == names@[next as int]@);
            match current.step(&names[next]) {
                Some(target) => Walker {
                    current,
                    target: Some(target),
                    names,
                    next,
                    qids,
                    failure: None,
                },
                None => Walker {
                    current,
                    target: None,
                    names,
                    next,
                    qids,
                    failure: Some(Error::PermissionDenied),
                },
            }
        }
    }

    /// Starts a walk by `names` from `base`.
    pub fn start(base: Path, names: Vec<P9String>) -> (w: Walker)
        ensures
            w@ == start_of(base@, names_view(names@)),
    {
        assert(names_view(names@).skip(0) =~= names_view(names@));
        Walker::settled(base, names, 0, Vec::new())
    }

    /// The path that the host has to resolve next, if the walk waits for
    /// one. It lies below the exported root.
    pub fn target(&self) -> (target: Option<&Path>)
        ensures
            match target_of(self@) {
                Some(p) => target is Some && target->0@ == p && contained(p),
                None => target is None,
            },
    {
        proof {
            use_type_invariant(self);
        }
        if self.failure.is_some() {
            return None;
        }
        match &self.target {
            Some(p) => {
                assert(names_view(self.names@).skip(self.next as int)[0]
                    == self.names@[self.next as int]@);
                let _ = p.depth();
                Some(p)
            },
            None => None,
        }
    }

    /// Takes the host's answer about the path that the walk waited for.
    pub fn advance(self, answer: Result<Qid, Error>) -> (w: Walker)
        ensures
            w@ == advance_of(self@, answer),
    {
        proof {
            use_type_invariant(&self);
        }
        if self.failure.is_some() {
            return self;
        }
        let ghost before = self;
        let Walker { current, target, names, next, qids, failure } = self;
        assert(before.next == next && before.names == names && before.target == target
            && before.current == current && before.failure == failure);
        match target {
            None => Walker { current, target: None, names, next, qids, failure },
            Some(reached) => match answer {
                Ok(qid) => {
                    assert(next < names.len());
                    let mut qids = qids;
                    qids.push(qid);
                    proof {
                        let all = names_view(names@);
                        assert(all.skip(next as int)[0] == names@[next as int]@);
                        assert(all.skip(next as int).skip(1) =~= all.skip(next + 1));
                    }
                    Walker::settled(reached, names, next + 1, qids)
                },
                Err(e) => Walker {
                    current,
                    target: None,
                    names,
                    next,
                    qids,
                    failure: Some(e),
                },
            },
        }
    }

    /// How the walk ended, if it is over.
    pub fn finish(self) -> (result: Option<WalkResult>)
        ensures
            match self@ {
                WalkState::Done(r) => result is Some && result->0@ == r,
                WalkState::Pending { .. } => result is None,
            },
    {
        let Walker { current, target, names, next, qids, failure } = self;
        match failure {
            Some(e) => if e == Error::NotFound {
                Some(WalkResult::Partial { qids })
            } else {
                Some(WalkResult::Failed { error: e })
            },
            None => match target {
                Some(_) => None,
                None => Some(WalkResult::Complete { path: current, qids }),
            },
        }
    }
}

/// One more answer after a run of answers is one more step from where the
/// run led.
pub proof fn lemma_run_push(
    state: WalkState,
    answers: Seq<Result<Qid, Error>>,
    last: Result<Qid, Error>,
)
    ensures
        run_of(state, answers.push(last)) == advance_of(run_of(state, answers), last),
    decreases answers.len(),
{
    let longer = answers.push(last);
    if answers.len() == 0 {
        assert(longer.skip(1) =~= Seq::<Result<Qid, Error>>::empty());
        assert(run_of(advance_of(state, last), longer.skip(1)) == advance_of(state, last));
    } else {
        assert(longer.skip(1) =~= answers.skip(1).push(last));
        lemma_run_push(advance_of(state, answers[0]), answers.skip(1), last);
    }
}

/// While the host finds every object and every step is allowed, the walk
/// goes from name to name: after as many answers as `qids` holds it stands
/// where the steps by that many names lead, with `qids` added to what was
/// resolved before.
pub proof fn lemma_walk_found(
    current: Seq<Seq<u8>>,
    resolved: Seq<Qid>,
    left: Seq<Seq<u8>>,
    qids: Seq<Qid>,
)
    requires
        qids.len() <= left.len(),
        follow(current, left.take(qids.len() as int)) is Some,
    ensures
        run_of(settle(current, resolved, left), all_found(qids)) == settle(
            follow(current, left.take(qids.len() as int))->0,
            resolved + qids,
            left.skip(qids.len() as int),
        ),
    decreases qids.len(),
{
    let k = qids.len() as int;
    if k == 0 {
        assert(left.take(0) =~= Seq::<Seq<u8>>::empty());
        assert(resolved + qids =~= resolved);
        assert(left.skip(0) =~= left);
    } else {
        let next = step_path(current, left[0])->0;
        let answers = all_found(qids);
        assert(left.take(k)[0] == left[0]);
        assert(left.take(k).skip(1) =~= left.skip(1).take(k - 1));
        assert(answers.skip(1) =~= all_found(qids.skip(1)));
        assert(answers[0] == Ok::<Qid, Error>(qids[0]));
        lemma_walk_found(next, resolved.push(qids[0]), left.skip(1), qids.skip(1));
        assert(resolved.push(qids[0]) + qids.skip(1) =~= resolved + qids);
        assert(left.skip(1).skip(k - 1) =~= left.skip(k));
    }
}

/// A walk without names is over at once, at the path it started from: this
/// is how an identifier is cloned.
pub proof fn lemma_empty_walk(base: Seq<Seq<u8>>)
    ensures
        start_of(base, Seq::empty()) == WalkState::Done(
            WalkResultView::Complete { path: base, qids: Seq::empty() },
        ),
{
}

/// A walk whose every step is allowed and whose every object the host finds
/// is complete: it reaches the path to which the names lead and reports one
/// identity for each name.
pub proof fn lemma_complete_walk(base: Seq<Seq<u8>>, names: Seq<Seq<u8>>, qids: Seq<Qid>)
    requires
        qids.len() == names.len(),
        follow(base, names) is Some,
    ensures
        run_of(start_of(base, names), all_found(qids)) == WalkState::Done(
            WalkResultView::Complete { path: follow(base, names)->0, qids },
        ),
{
    assert(names.take(names.len() as int) =~= names);
    lemma_walk_found(base, Seq::empty(), names, qids);
    assert(Seq::<Qid>::empty() + qids =~= qids);
}

/// A walk whose name number `qids.len() + 1` does not exist, after names
/// that the host all found, ends there without failing as a whole: it
/// reports the identities of the objects found before, and no more.
pub proof fn lemma_partial_walk(base: Seq<Seq<u8>>, names: Seq<Seq<u8>>, qids: Seq<Qid>)
    requires
        qids.len() < names.len(),
        follow(base, names.take(qids.len() as int + 1)) is Some,
    ensures
        run_of(
            start_of(base, names),
            all_found(qids).push(Err(Error::NotFound)),
        ) == WalkState::Done(WalkResultView::Partial { qids }),
{
    let k = qids.len() as int;
    lemma_follow_prefix(base, names, k);
    lemma_walk_found(base, Seq::empty(), names, qids);
    lemma_run_push(start_of(base, names), all_found(qids), Err(Error::NotFound));
    assert(Seq::<Qid>::empty() + qids =~= qids);
    assert(names.skip(k)[0] == names[k]);
}

/// A walk that would leave the exported tree fails closed. After names that
/// the host all found, a step that is not allowed fails the walk with
/// `PermissionDenied` before the host is asked, and so does the host's
/// answer that a resolution would leave the tree. Either way nothing of the
/// walk counts: no identity is reported, however many names were resolved
/// before.
pub proof fn lemma_escape_fails_closed(base: Seq<Seq<u8>>, names: Seq<Seq<u8>>, qids: Seq<Qid>)
    requires
        qids.len() < names.len(),
        follow(base, names.take(qids.len() as int)) is Some,
    ensures
        follow(base, names.take(qids.len() as int + 1)) is None ==> run_of(
            start_of(base, names),
            all_found(qids),
        ) == WalkState::Done(WalkResultView::Failed { error: Error::PermissionDenied }),
        follow(base, names.take(qids.len() as int + 1)) is Some ==> run_of(
            start_of(base, names),
            all_found(qids).push(Err(Error::PermissionDenied)),
        ) == WalkState::Done(WalkResultView::Failed { error: Error::PermissionDenied }),
{
    let k = qids.len() as int;
    lemma_follow_prefix(base, names, k);
    lemma_walk_found(base, Seq::empty(), names, qids);
    lemma_run_push(start_of(base, names), all_found(qids), Err(Error::PermissionDenied));
    assert(names.skip(k)[0] == names[k]);
}

/// The steps by a list of names lead where the step by the name at position
/// `k` leads from where the names before it lead.
pub proof fn lemma_follow_prefix(path: Seq<Seq<u8>>, names: Seq<Seq<u8>>, k: int)
    requires
        0 <= k < names.len(),
    ensures
        follow(path, names.take(k + 1)) == match follow(path, names.take(k)) {
            Some(reached) => step_path(reached, names[k]),
            None => None,
        },
    decreases k,
{
    if k == 0 {
        assert(names.take(0) =~= Seq::<Seq<u8>>::empty());
        assert(names.take(1).skip(1) =~= Seq::<Seq<u8>>::empty());
        assert(names.take(1)[0] == names[0]);
        match step_path(path, names[0]) {
            Some(next) => {
                assert(follow(next, names.take(1).skip(1)) == Some(next));
            },
            None => {},
        }
    } else {
        assert(names.take(k + 1)[0] == names[0]);
        assert(names.take(k)[0] == names[0]);
        assert(names.take(k + 1).skip(1) =~= names.skip(1).take(k));
        assert(names.take(k).skip(1) =~= names.skip(1).take(k - 1));
        match step_path(path, names[0]) {
            Some(next) => {
                lemma_follow_prefix(next, names.skip(1), k - 1);
            },
            None => {},
        }
    }
}

/// A walk from a path below the exported root, whatever the names and
/// whatever the host answers, never waits for a path that is not below the
/// root and never completes at one.
pub proof fn lemma_walk_contained(
    base: Seq<Seq<u8>>,
    names: Seq<Seq<u8>>,
    answers: Seq<Result<Qid, Error>>,
)
    requires
        contained(base),
    ensures
        safe(run_of(start_of(base, names), answers)),
{
    lemma_settle_safe(base, Seq::empty(), names);
    lemma_run_safe(start_of(base, names), answers);
}

/// Every path of the state lies below the exported root: the path reached,
/// the path waited for, and the path at which the walk completed.
pub open spec fn safe(state: WalkState) -> bool {
    match state {
        WalkState::Pending { current, left, .. } => {
            &&& contained(current)
            &&& left.len() > 0
            &&& step_path(current, left[0]) matches Some(target)
            &&& contained(target)
        },
        WalkState::Done(WalkResultView::Complete { path, .. }) => contained(path),
        WalkState::Done(_) => true,
    }
}

/// `settle` keeps the walk below the root.
proof fn lemma_settle_safe(current: Seq<Seq<u8>>, qids: Seq<Qid>, left: Seq<Seq<u8>>)
    requires
        contained(current),
    ensures
        safe(settle(current, qids, left)),
{
    if left.len() > 0 {
        lemma_step_contained(current, left[0]);
    }
}

/// A run of answers keeps the walk below the root.
proof fn lemma_run_safe(state: WalkState, answers: Seq<Result<Qid, Error>>)
    requires
        safe(state),
    ensures
        safe(run_of(state, answers)),
    decreases answers.len(),
{
    if answers.len() > 0 {
        if let WalkState::Pending { current, qids, left } = state {
            if let Ok(qid) = answers[0] {
                lemma_settle_safe(step_path(current, left[0])->0, qids.push(qid), left.skip(1));
            }
        }
        lemma_run_safe(advance_of(state, answers[0]), answers.skip(1));
    }
}

} // verus!
