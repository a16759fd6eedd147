//! The decisions of the rename step, one entry at a time in index order.
//!
//! The executor never touches the file system. It answers each event with an
//! action: the caller checks whether a target exists, performs a rename, or
//! shows the plan, and hands the result back. A failed entry stops the run;
//! the renames done before it are kept, as there is no rollback.
use vstd::prelude::*;
use crate::enumerate::{FileEntry, Outcome};
use crate::error::RenameError;
use crate::path::{same_path, same_path_exec};

verus! {

/// Where the executor stands.
#[derive(Clone, Copy, PartialEq, Eq, Debug, Structural)]
pub enum Phase {
    /// Nothing done yet.
    Start,
    /// Waiting to learn whether the target of the current entry exists.
    AwaitProbe,
    /// Waiting for the rename of the current entry.
    AwaitRename,
    /// The run is over and succeeded.
    Finished,
    /// The run stopped on an error.
    Failed,
}

/// What the caller is to do next.
#[derive(Debug)]
pub enum Action {
    /// Show each entry's original and target path; change nothing on disk. The run succeeds.
    ShowPlan,
    /// Tell whether the target path of entry `index` exists.
    Probe { index: usize },
    /// Rename entry `index` from its original path to its target path.
    Rename { index: usize },
    /// Every entry is settled: report the outcomes. The run succeeds.
    Report,
    /// Stop the run with this error; renames already done stay done.
    Abort(RenameError),
}

/// Drives the renames of a planned list of entries.
pub struct Executor {
    /// The entries, in their fixed order.
    pub entries: Vec<FileEntry>,
    /// The entry being handled; all before it are settled.
    pub cursor: usize,
    /// Where the run stands.
    pub phase: Phase,
    /// Show the plan instead of renaming.
    pub dry_run: bool,
}

/// The entry's target path names the same file as its original path.
pub open spec fn is_noop(e: FileEntry) -> bool {
    e.target_path is Some && same_path(e.target_path->Some_0@, e.original_path@)
}

/// The entry has reached its final outcome on a run that renames.
pub open spec fn settled(e: FileEntry) -> bool {
    if is_noop(e) {
        e.outcome == Outcome::NoopUnchanged
    } else {
        e.outcome == Outcome::Renamed
    }
}

/// Every entry has a target path.
pub open spec fn all_planned(es: Seq<FileEntry>) -> bool {
    forall|i: int| 0 <= i < es.len() ==> (#[trigger] es[i]).target_path is Some
}

/// The two lists hold the same entries but for their outcomes.
pub open spec fn same_plan(a: Seq<FileEntry>, b: Seq<FileEntry>) -> bool {
    &&& a.len() == b.len()
    &&& forall|i: int|
        0 <= i < a.len() ==> {
            &&& (#[trigger] a[i]).original_path == b[i].original_path
            &&& a[i].original_name == b[i].original_name
            &&& a[i].edited_name == b[i].edited_name
            &&& a[i].target_path == b[i].target_path
        }
}

/// From `from`, the entries up to `to` are no-ops and were marked so, and
/// `to` is the first entry from `from` on that needs a rename (or the end).
/// No other outcome changed.
pub open spec fn skipped_noops(old: Seq<FileEntry>, new: Seq<FileEntry>, from: int, to: int) -> bool {
    &&& 0 <= from <= to <= old.len()
    &&& same_plan(old, new)
    &&& forall|j: int|
        from <= j < to ==> is_noop(#[trigger] old[j]) && new[j].outcome == Outcome::NoopUnchanged
    &&& to < old.len() ==> !is_noop(old[to])
    &&& forall|j: int| 0 <= j < old.len() && !(from <= j < to) ==> (#[trigger] new[j]).outcome == old[j].outcome
}

impl Executor {
    /// The executor's state is consistent.
    pub open spec fn wf(&self) -> bool {
        &&& self.cursor <= self.entries@.len()
        &&& all_planned(self.entries@)
        &&& forall|i: int| 0 <= i < self.cursor ==> settled(#[trigger] self.entries@[i])
        &&& forall|i: int|
            self.cursor <= i < self.entries@.len() ==> (#[trigger] self.entries@[i]).outcome
                == Outcome::Unchanged
        &&& (self.phase == Phase::AwaitProbe || self.phase == Phase::AwaitRename) ==> {
            &&& self.cursor < self.entries@.len()
            &&& !is_noop(self.entries@[self.cursor as int])
            &&& !self.dry_run
        }
        &&& self.phase == Phase::Failed ==> self.cursor < self.entries@.len()
        &&& (self.phase == Phase::Finished && !self.dry_run) ==> self.cursor == self.entries@.len()
        &&& self.phase == Phase::Start ==> self.cursor == 0
        &&& self.dry_run ==> self.cursor == 0
    }

    /// `a` is the action due where the cursor now stands: a probe of the
    /// current entry, or the report once every entry is settled.
    pub open spec fn action_at(&self, a: Action) -> bool {
        if self.cursor < self.entries@.len() {
            &&& self.phase == Phase::AwaitProbe
            &&& a == Action::Probe { index: self.cursor }
        } else {
            &&& self.phase == Phase::Finished
            &&& a == Action::Report
        }
    }

    /// An executor for planned entries, none of them handled yet.
    pub fn new(entries: Vec<FileEntry>, dry_run: bool) -> (r: Executor)
        requires
            all_planned(entries@),
            forall|i: int| 0 <= i < entries@.len() ==> (#[trigger] entries@[i]).outcome == Outcome::Unchanged,
        ensures
            r.wf(),
            r.entries@ == entries@,
            r.cursor == 0,
            r.phase == Phase::Start,
            r.dry_run == dry_run,
    {
        Executor { entries, cursor: 0, phase: Phase::Start, dry_run }
    }

    /// Marks the no-op entries from the cursor on, and stops at the first entry
    /// that needs a rename.
    fn skip_noops(&mut self) -> (a: Action)
        requires
            old(self).cursor <= old(self).entries@.len(),
            all_planned(old(self).entries@),
            !old(self).dry_run,
            forall|i: int| 0 <= i < old(self).cursor ==> settled(#[trigger] old(self).entries@[i]),
            forall|i: int|
                old(self).cursor <= i < old(self).entries@.len() ==> (#[trigger] old(
                    self,
                ).entries@[i]).outcome == Outcome::Unchanged,
        ensures
            final(self).wf(),
            final(self).dry_run == old(self).dry_run,
            skipped_noops(old(self).entries@, final(self).entries@, old(self).cursor as int, final(self).cursor as int),
            final(self).action_at(a),
    {
        let ghost start = self.entries@;
        let ghost from = self.cursor as int;
        while self.cursor < self.entries.len()
            invariant
                from <= self.cursor <= self.entries@.len(),
                !self.dry_run,
                self.dry_run == old(self).dry_run,
                start == old(self).entries@,
                from == old(self).cursor,
                all_planned(start),
                forall|i: int| 0 <= i < from ==> settled(#[trigger] start[i]),
                forall|i: int| from <= i < start.len() ==> (#[trigger] start[i]).outcome == Outcome::Unchanged,
                same_plan(start, self.entries@),
                forall|j: int|
                    from <= j < self.cursor ==> is_noop(#[trigger] start[j]) && self.entries@[j].outcome
                        == Outcome::NoopUnchanged,
                forall|j: int|
                    0 <= j < start.len() && !(from <= j < self.cursor) ==> (#[trigger] self.entries@[j]).outcome
                        == start[j].outcome,
            ensures
                self.cursor < self.entries@.len() ==> !is_noop(start[self.cursor as int]),
            decreases self.entries@.len() - self.cursor,
        {
            let c = self.cursor;
            let same = match &self.entries[c].target_path {
                Some(t) => same_path_exec(t.as_str(), self.entries[c].original_path.as_str()),
                None => false,
            };
            if !same {
                assert(!is_noop(start[c as int]));
                break;
            }
            self.entries[c].outcome = Outcome::NoopUnchanged;
            self.cursor = c + 1;
        }
        proof {
            assert forall|i: int| 0 <= i < self.entries@.len() implies (#[trigger] self.entries@[i]).target_path is Some by {
                assert(start[i].target_path is Some);
            }
            assert forall|i: int| 0 <= i < self.cursor implies settled(#[trigger] self.entries@[i]) by {
                if i >= from {
                    assert(is_noop(start[i]));
                } else {
                    assert(settled(start[i]));
                }
            }
        }
        if self.cursor < self.entries.len() {
            self.phase = Phase::AwaitProbe;
            Action::Probe { index: self.cursor }
        } else {
            self.phase = Phase::Finished;
            Action::Report
        }
    }

    /// Begins the run. In a dry run, the plan is shown and nothing is
    /// marked; otherwise the leading no-op entries are marked and the first
    /// entry that needs a rename is probed.
    pub fn start(&mut self) -> (a: Action)
        requires
            old(self).wf(),
            old(self).phase == Phase::Start,
        ensures
            final(self).wf(),
            final(self).dry_run == old(self).dry_run,
            old(self).dry_run ==> {
                &&& a is ShowPlan
                &&& final(self).phase == Phase::Finished
                &&& final(self).entries@ == old(self).entries@
            },
            !old(self).dry_run ==> {
                &&& skipped_noops(old(self).entries@, final(self).entries@, 0, final(self).cursor as int)
                &&& final(self).action_at(a)
            },
    {
        if self.dry_run {
            self.phase = Phase::Finished;
            Action::ShowPlan
        } else {
            self.skip_noops()
        }
    }

    /// Takes whether the target path of the current entry exists. An existing
    /// target stops the run; otherwise the entry is to be renamed.
    pub fn on_probe(&mut self, target_exists: bool) -> (a: Action)
        requires
            old(self).wf(),
            old(self).phase == Phase::AwaitProbe,
        ensures
            final(self).wf(),
            final(self).entries@ == old(self).entries@,
            final(self).cursor == old(self).cursor,
            final(self).dry_run == old(self).dry_run,
            target_exists ==> {
                &&& final(self).phase == Phase::Failed
                &&& a == Action::Abort(RenameError::UnsafeRename { index: old(self).cursor })
            },
            !target_exists ==> {
                &&& final(self).phase == Phase::AwaitRename
                &&& a == Action::Rename { index: old(self).cursor }
            },
    {
        if target_exists {
            self.phase = Phase::Failed;
            Action::Abort(RenameError::UnsafeRename { index: self.cursor })
        } else {
            self.phase = Phase::AwaitRename;
            Action::Rename { index: self.cursor }
        }
    }

    /// Takes whether the rename of the current entry succeeded. A success
    /// marks the entry renamed and moves on to the next entry that needs a
    /// rename; a failure stops the run.
    pub fn on_rename(&mut self, succeeded: bool) -> (a: Action)
        requires
            old(self).wf(),
            old(self).phase == Phase::AwaitRename,
        ensures
            final(self).wf(),
            final(self).dry_run == old(self).dry_run,
            !succeeded ==> {
                &&& final(self).phase == Phase::Failed
                &&& final(self).entries@ == old(self).entries@
                &&& final(self).cursor == old(self).cursor
                &&& a == Action::Abort(RenameError::UnsafeRename { index: old(self).cursor })
            },
            succeeded ==> {
                &&& final(self).entries@[old(self).cursor as int].outcome == Outcome::Renamed
                &&& skipped_noops(
                    old(self).entries@.update(
                        old(self).cursor as int,
                        FileEntry { outcome: Outcome::Renamed, ..old(self).entries@[old(self).cursor as int] },
                    ),
                    final(self).entries@,
                    old(self).cursor + 1,
                    final(self).cursor as int,
                )
                &&& final(self).action_at(a)
            },
    {
        if !succeeded {
            self.phase = Phase::Failed;
            return Action::Abort(RenameError::UnsafeRename { index: self.cursor });
        }
        let c = self.cursor;
        let n: usize = self.entries.len();
        assert(c < n);
        self.entries[c].outcome = Outcome::Renamed;
        self.cursor = c + 1;
        assert(self.entries@ =~= old(self).entries@.update(
            c as int,
            FileEntry { outcome: Outcome::Renamed, ..old(self).entries@[c as int] },
        ));
        self.skip_noops()
    }
}

/// Where every entry is a no-op, skipping the no-ops from the first entry
/// reaches the end: every entry is marked a no-op and none is renamed.
pub proof fn lemma_all_noops_settle(old: Seq<FileEntry>, new: Seq<FileEntry>, to: int)
    requires
        forall|i: int| 0 <= i < old.len() ==> is_noop(#[trigger] old[i]),
        skipped_noops(old, new, 0, to),
    ensures
        to == old.len(),
        forall|i: int| 0 <= i < new.len() ==> (#[trigger] new[i]).outcome == Outcome::NoopUnchanged,
{
    if to < old.len() {
        assert(is_noop(old[to]));
    }
}

/// A dry run never asks for a probe or a rename, and leaves every entry
/// unchanged.
pub proof fn lemma_dry_run_renames_nothing(x: Executor)
    requires
        x.wf(),
        x.dry_run,
    ensures
        x.phase != Phase::AwaitProbe,
        x.phase != Phase::AwaitRename,
        forall|i: int| 0 <= i < x.entries@.len() ==> (#[trigger] x.entries@[i]).outcome == Outcome::Unchanged,
{
}

} // verus!
