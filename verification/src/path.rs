//! The paths of a multipath connection.

use std::collections::hash_map::Entry;
use std::collections::HashMap;

use vstd::prelude::*;

use crate::error::Error;

verus! {

broadcast use vstd::std_specs::hash::group_hash_axioms;

/// The sum of `amounts`.
pub open spec fn total(amounts: Seq<u64>) -> int
    decreases amounts.len(),
{
    if amounts.len() == 0 {
        0
    } else {
        total(amounts.drop_last()) + amounts.last()
    }
}

/// A prefix sums up to no more than the whole.
proof fn lemma_total_of_prefix(amounts: Seq<u64>, n: int)
    requires
        0 <= n <= amounts.len(),
    ensures
        0 <= total(amounts.take(n)) <= total(amounts),
    decreases amounts.len(),
{
    if n < amounts.len() {
        lemma_total_of_prefix(amounts.drop_last(), n);
        assert(amounts.drop_last().take(n) =~= amounts.take(n));
    } else {
        assert(amounts.take(n) =~= amounts);
        if n > 0 {
            lemma_total_of_prefix(amounts.drop_last(), n - 1);
        }
    }
}

/// What the scheduler knows of a path.
#[derive(Debug)]
pub struct Path {
    /// Whether the path has been validated and is in use.
    pub active: bool,
    /// Whether the recovery state of the path lets it send now.
    pub can_send: bool,
    /// The congestion window in bytes.
    pub congestion_window: u64,
    /// The smoothed round trip time in whole milliseconds.
    pub srtt_millis: u128,
    /// The bytes lost, one amount for each recorded loss.
    pub lost_bytes: Vec<u64>,
    /// The packet number space that the path sends in.
    pub space_id: u64,
    /// Whether the path may carry stream frames.
    pub allow_stream_frames: bool,
}

impl Path {
    /// Whether the path is active and able to send.
    pub open spec fn usable(self) -> bool {
        self.active && self.can_send
    }

    /// The bytes lost on the path.
    pub open spec fn total_lost(self) -> int {
        total(self.lost_bytes@)
    }

    /// Returns whether the path is active and able to send.
    pub fn is_usable(&self) -> (usable: bool)
        ensures
            usable == self.usable(),
    {
        self.active && self.can_send
    }

    /// Checks that [`total_lost_bytes`](Self::total_lost_bytes) can be asked for.
    pub fn check_lost_bytes(&self) -> (fit: bool)
        ensures
            fit == (self.total_lost() <= u64::MAX),
    {
        let mut lost: u64 = 0;
        for i in 0..self.lost_bytes.len()
            invariant
                lost == total(self.lost_bytes@.take(i as int)),
        {
            proof {
                let next = self.lost_bytes@.take(i + 1);
                lemma_total_of_prefix(self.lost_bytes@, i + 1);
                assert(next.drop_last() =~= self.lost_bytes@.take(i as int));
            }
            match lost.checked_add(self.lost_bytes[i]) {
                Some(more) => lost = more,
                None => {
                    return false;
                },
            }
        }
        assert(self.lost_bytes@.take(self.lost_bytes@.len() as int) =~= self.lost_bytes@);
        true
    }

    /// Returns the bytes lost on the path.
    pub fn total_lost_bytes(&self) -> (lost: u64)
        requires
            self.total_lost() <= u64::MAX,
        ensures
            lost == self.total_lost(),
    {
        let mut lost: u64 = 0;
        for i in 0..self.lost_bytes.len()
            invariant
                self.total_lost() <= u64::MAX,
                lost == total(self.lost_bytes@.take(i as int)),
        {
            proof {
                let next = self.lost_bytes@.take(i + 1);
                lemma_total_of_prefix(self.lost_bytes@, i + 1);
                assert(next.drop_last() =~= self.lost_bytes@.take(i as int));
            }
            lost = lost + self.lost_bytes[i];
        }
        assert(self.lost_bytes@.take(self.lost_bytes@.len() as int) =~= self.lost_bytes@);
        lost
    }

    /// Allows or forbids stream frames on the path.
    pub fn set_allow_stream_frames(&mut self, allow: bool)
        ensures
            *final(self) == (Path { allow_stream_frames: allow, ..*old(self) }),
    {
        self.allow_stream_frames = allow;
    }
}

/// The paths of a connection by their identifiers.
#[derive(Debug)]
pub struct PathMap {
    order: Vec<usize>,
    paths: HashMap<usize, Path>,
}

/// The paths by their identifiers, without their order.
impl View for PathMap {
    type V = Map<usize, Path>;

    closed spec fn view(&self) -> Map<usize, Path> {
        self.paths@
    }
}

/// The first of the identifiers in `order` that belongs to an active path.
pub open spec fn first_active(order: Seq<usize>, paths: Map<usize, Path>) -> Option<usize>
    decreases order.len(),
{
    if order.len() == 0 {
        None
    } else if paths.contains_key(order[0]) && paths[order[0]].active {
        Some(order[0])
    } else {
        first_active(order.skip(1), paths)
    }
}

impl PathMap {
    /// The identifiers in the order in which the paths are walked.
    pub closed spec fn order(self) -> Seq<usize> {
        self.order@
    }

    /// Whether the order lists each path once, and nothing else.
    pub open spec fn wf(self) -> bool {
        &&& self.order().no_duplicates()
        &&& forall|pid: usize| #[trigger] self.order().contains(pid) <==> self@.contains_key(pid)
    }

    /// Creates a map without paths.
    pub fn new() -> (paths: Self)
        ensures
            paths.wf(),
            paths@ == Map::<usize, Path>::empty(),
            paths.order() == Seq::<usize>::empty(),
    {
        PathMap { order: Vec::new(), paths: HashMap::new() }
    }

    /// Adds `path` behind the paths that are already there. A path of the same
    /// identifier is replaced in its place.
    pub fn insert(&mut self, pid: usize, path: Path)
        ensures
            old(self).wf() ==> final(self).wf(),
            final(self)@ == old(self)@.insert(pid, path),
            final(self).order() == if old(self)@.contains_key(pid) {
                old(self).order()
            } else {
                old(self).order().push(pid)
            },
    {
        if !self.paths.contains_key(&pid) {
            self.order.push(pid);
        }
        self.paths.insert(pid, path);
        proof {
            let before = old(self).order();
            let after = self.order();
            if old(self).wf() && !old(self)@.contains_key(pid) {
                assert(!before.contains(pid));
                assert forall|p: usize| #[trigger] after.contains(p) <==> self@.contains_key(p) by {
                    if p == pid {
                        assert(after[before.len() as int] == pid);
                    } else if before.contains(p) {
                        assert(after[before.index_of(p)] == p);
                    } else if after.contains(p) {
                        assert(before[after.index_of(p)] == p);
                    }
                }
            }
        }
    }

    /// Returns the path of the identifier `pid`.
    pub fn get(&self, pid: usize) -> (path: Result<&Path, Error>)
        ensures
            match path {
                Ok(path) => self@.contains_key(pid) && *path == self@[pid],
                Err(error) => !self@.contains_key(pid) && error == Error::InternalError,
            },
    {
        match self.paths.get(&pid) {
            Some(path) => Ok(path),
            None => Err(Error::InternalError),
        }
    }

    /// Returns the path of the identifier `pid` for changes.
    pub fn get_mut(&mut self, pid: usize) -> (path: Result<&mut Path, Error>)
        ensures
            match path {
                Ok(path) => {
                    &&& old(self)@.contains_key(pid)
                    &&& *path == old(self)@[pid]
                    &&& final(self)@ == old(self)@.insert(pid, *final(path))
                },
                Err(error) => {
                    &&& !old(self)@.contains_key(pid)
                    &&& error == Error::InternalError
                    &&& final(self)@ == old(self)@
                },
            },
            final(self).order() == old(self).order(),
            old(self).wf() ==> final(self).wf(),
    {
        match self.paths.entry(pid) {
            Entry::Occupied(entry) => Ok(entry.into_mut()),
            Entry::Vacant(_) => Err(Error::InternalError),
        }
    }

    /// Returns the identifiers in the order in which the paths are walked.
    pub fn pids(&self) -> (pids: &Vec<usize>)
        ensures
            pids@ == self.order(),
    {
        &self.order
    }
}

/// A change in the life of a path.
#[derive(Debug, Clone, Copy, PartialEq, Eq, Structural)]
pub enum PathEvent {
    /// The path has been validated.
    Validated(usize),
    /// The path has been abandoned.
    Abandoned(usize),
}

/// A path is usable if it is active and can send. Neither is enough by itself.
pub proof fn law_usable_path_is_active_and_can_send(path: Path)
    ensures
        path.usable() <==> path.active && path.can_send,
{
}

/// Each recorded loss counts with all of its bytes.
pub proof fn law_each_loss_counts(amounts: Seq<u64>, amount: u64)
    ensures
        total(Seq::<u64>::empty()) == 0,
        total(amounts.push(amount)) == total(amounts) + amount,
{
    assert(amounts.push(amount).drop_last() =~= amounts);
}

/// The losses of a path are those that are recorded for it, and at least as
/// great as each of them.
pub proof fn law_losses_are_recorded(path: Path)
    ensures
        path.total_lost() == total(path.lost_bytes@),
        path.total_lost() >= 0,
        forall|i: int|
            0 <= i < path.lost_bytes@.len() ==> path.total_lost() >= #[trigger] path.lost_bytes@[i],
{
    let amounts = path.lost_bytes@;
    lemma_total_of_prefix(amounts, 0);
    assert forall|i: int| 0 <= i < amounts.len() implies path.total_lost()
        >= #[trigger] amounts[i] by {
        lemma_total_of_prefix(amounts, i + 1);
        lemma_total_of_prefix(amounts, i);
        assert(amounts.take(i + 1).drop_last() =~= amounts.take(i));
    }
}

/// The first active path is active, and no path before it is. If there is none,
/// no path is active.
pub proof fn law_first_active_path_is_first(order: Seq<usize>, paths: Map<usize, Path>)
    ensures
        match first_active(order, paths) {
            Some(pid) => exists|i: int|
                0 <= i < order.len() && #[trigger] order[i] == pid && paths.contains_key(pid)
                    && paths[pid].active && forall|j: int|
                    0 <= j < i ==> !(paths.contains_key(#[trigger] order[j])
                        && paths[order[j]].active),
            None => forall|j: int|
                0 <= j < order.len() ==> !(paths.contains_key(#[trigger] order[j])
                    && paths[order[j]].active),
        },
    decreases order.len(),
{
    if order.len() > 0 {
        let rest = order.skip(1);
        if paths.contains_key(order[0]) && paths[order[0]].active {
            assert(order[0] == order[0]);
        } else {
            law_first_active_path_is_first(rest, paths);
            match first_active(rest, paths) {
                Some(pid) => {
                    let k = choose|i: int|
                        0 <= i < rest.len() && #[trigger] rest[i] == pid && paths.contains_key(pid)
                            && paths[pid].active && forall|j: int|
                            0 <= j < i ==> !(paths.contains_key(#[trigger] rest[j])
                                && paths[rest[j]].active);
                    assert(order[k + 1] == pid);
                    assert forall|j: int| 0 <= j < k + 1 implies !(paths.contains_key(
                        #[trigger] order[j],
                    ) && paths[order[j]].active) by {
                        if j > 0 {
                            assert(rest[j - 1] == order[j]);
                        }
                    }
                },
                None => {
                    assert forall|j: int| 0 <= j < order.len() implies !(paths.contains_key(
                        #[trigger] order[j],
                    ) && paths[order[j]].active) by {
                        if j > 0 {
                            assert(rest[j - 1] == order[j]);
                        }
                    }
                },
            }
        }
    }
}

} // verus!
