use vstd::prelude::*;

use crate::error::Error;
use crate::patchname::{names_of, PatchName};
use crate::resolve::has_desc;
use crate::stack::{lookup_commit, StackState};
use crate::transaction::{position_of, index_in, ConflictMode, Intent, StackTransaction};

verus! {

/// What the repository made of a push: a clean merge committed as the given commit, a
/// conflicting one left in the work tree with the given provisional commit, or a failed write.
#[derive(Clone, Debug)]
pub enum PushOutcome {
    Clean(String),
    Conflict(String),
    Failed,
}

/// What the repository has to do next for a running transaction.
#[derive(Clone, Debug)]
pub enum Action {
    /// Take the top patch off; the head moves to its parent.
    Pop { name: PatchName },
    /// Merge the patch onto `onto`, or, where `merged` says its change is there, commit it
    /// with the tree of `onto`; then report the outcome.
    Push { name: PatchName, merged: bool, onto: String },
    /// Put the already committed new patch on top.
    New { name: PatchName },
    /// Every step is done: write this state as the stack's record, in one update.
    Persist(StackState),
    /// The transaction was aborted: write nothing.
    Stop,
}

/// A transaction that is being carried out against the repository. `stored` is the stored
/// state that it started from; `work` is the state that the steps carried out so far give.
pub struct Execution {
    pub stored: StackState,
    pub work: StackState,
    pub intents: Vec<Intent>,
    pub next: usize,
    pub written: usize,
    pub conflict_mode: ConflictMode,
    pub conflicted: bool,
    pub aborted: bool,
}

impl Execution {
    /// The steps done so far are consistent with the stored state.
    pub open spec fn wf(&self) -> bool {
        &&& self.work.has_descs()
        &&& self.next <= self.intents@.len()
        &&& self.written <= self.next
        &&& self.stored.wf() ==> self.work.wf()
    }

    /// Whether the steps are all done, or the transaction stopped.
    pub open spec fn finished(&self) -> bool {
        self.aborted || self.next >= self.intents@.len()
    }

    /// The steps that remain do not change; nothing but the work state and the counters moves.
    pub open spec fn same_plan(&self, o: &Execution) -> bool {
        &&& self.stored == o.stored
        &&& self.intents == o.intents
        &&& self.conflict_mode == o.conflict_mode
    }

    /// What the repository has to do next.
    pub fn next_action(&self) -> (r: Action)
        requires
            self.wf(),
        ensures
            self.aborted ==> r is Stop,
            !self.aborted && self.next >= self.intents@.len() ==> r is Persist && r->Persist_0@
                == self.work@ && (self.stored.wf() ==> r->Persist_0.wf()),
            !self.finished() && self.intents@[self.next as int] is Pop ==> r is Pop
                && r->Pop_name@ == self.intents@[self.next as int]->Pop_name@,
            !self.finished() && self.intents@[self.next as int] is Push ==> {
                &&& r is Push
                &&& r->Push_name@ == self.intents@[self.next as int]->Push_name@
                &&& r->Push_merged == self.intents@[self.next as int]->Push_merged
                &&& r->Push_onto@ == self.work.head@
            },
            !self.finished() && self.intents@[self.next as int] is New ==> r is New
                && r->New_name@ == self.intents@[self.next as int]->New_name@,
    {
        if self.aborted {
            return Action::Stop;
        }
        if self.next >= self.intents.len() {
            return Action::Persist(self.work.copy());
        }
        match &self.intents[self.next] {
            Intent::Pop { name } => Action::Pop { name: name.copy() },
            Intent::Push { name, merged } => Action::Push {
                name: name.copy(),
                merged: *merged,
                onto: self.work.head.clone(),
            },
            Intent::New { name, commit: _ } => Action::New { name: name.copy() },
        }
    }

    /// The commit that the work state records for `name`.
    pub fn commit_of(&self, name: &PatchName) -> (r: Option<String>)
        requires
            self.wf(),
        ensures
            r is Some <==> self.work@.commits.dom().contains(name@),
            r is Some ==> r->Some_0@ == self.work@.commits[name@],
    {
        lookup_commit(&self.work.patches, name)
    }

    /// Whether a failure should put the work tree back as it was: no commit has been written.
    pub fn restore_worktree(&self) -> (r: bool)
        ensures
            r == (self.aborted && self.written == 0),
    {
        self.aborted && self.written == 0
    }

    /// Records that the pop of the next step was done.
    pub fn record_pop(&mut self) -> (r: Result<(), Error>)
        requires
            old(self).wf(),
            !old(self).finished(),
            old(self).intents@[old(self).next as int] is Pop,
        ensures
            final(self).wf(),
            final(self).same_plan(old(self)),
            final(self).written == old(self).written,
            final(self).conflicted == old(self).conflicted,
            ({
                let a = old(self).work@.applied;
                let name = old(self).intents@[old(self).next as int]->Pop_name@;
                &&& a.len() > 0 && a.last() == name ==> {
                    &&& r is Ok
                    &&& final(self).work@ == old(self).work@.popped()
                    &&& final(self).next == old(self).next + 1
                    &&& !final(self).aborted
                }
                &&& !(a.len() > 0 && a.last() == name) ==> {
                    &&& r == Err::<(), Error>(Error::CorruptState)
                    &&& final(self).aborted
                    &&& final(self).work == old(self).work
                }
            }),
    {
        let i = self.next;
        let len = self.intents.len();
        assert(i < len);
        let ok = match &self.intents[i] {
            Intent::Pop { name } => {
                let n = self.work.applied.len();
                n > 0 && self.work.applied[n - 1].same(name)
            },
            _ => false,
        };
        proof {
            let a = self.work.applied@;
            if a.len() > 0 {
                assert(names_of(a).last() == a.last()@);
            }
        }
        if !ok {
            self.aborted = true;
            return Err(Error::CorruptState);
        }
        self.work.record_pop();
        self.next = i + 1;
        Ok(())
    }

    /// Records what came of the push of the next step. A clean push moves on. A conflict
    /// where conflicts are allowed is recorded and ends the steps; where they are not, it
    /// aborts the transaction, and so does a failed write: the stored state is then left as
    /// it was, and the error says how many commits were written before.
    pub fn record_push(&mut self, outcome: PushOutcome) -> (r: Result<(), Error>)
        requires
            old(self).wf(),
            !old(self).finished(),
            old(self).intents@[old(self).next as int] is Push,
        ensures
            final(self).wf(),
            final(self).same_plan(old(self)),
            ({
                let u = old(self).work@.unapplied;
                let name = old(self).intents@[old(self).next as int]->Push_name@;
                let k = index_in(u, name);
                let w = old(self).written;
                &&& k >= u.len() ==> r == Err::<(), Error>(Error::NotFound) && final(self).aborted
                    && final(self).work == old(self).work
                &&& k < u.len() ==> match outcome {
                    PushOutcome::Clean(c) => {
                        &&& r is Ok
                        &&& final(self).work@ == old(self).work@.pushed(k, c@)
                        &&& final(self).next == old(self).next + 1
                        &&& final(self).written == w + 1
                        &&& !final(self).aborted
                        &&& final(self).conflicted == old(self).conflicted
                    },
                    PushOutcome::Conflict(c) => if old(self).conflict_mode == ConflictMode::Allow {
                        &&& r is Ok
                        &&& final(self).work@ == old(self).work@.pushed(k, c@)
                        &&& final(self).next == old(self).intents@.len()
                        &&& final(self).written == w + 1
                        &&& !final(self).aborted
                        &&& final(self).conflicted
                    } else {
                        &&& r == Err::<(), Error>(Error::MergeConflict { written: w })
                        &&& final(self).aborted
                        &&& final(self).work == old(self).work
                        &&& final(self).written == w
                    },
                    PushOutcome::Failed => {
                        &&& r == Err::<(), Error>(Error::RepositoryWriteFailure { written: w })
                        &&& final(self).aborted
                        &&& final(self).work == old(self).work
                        &&& final(self).written == w
                    },
                }
            }),
    {
        let i = self.next;
        let len = self.intents.len();
        assert(i < len);
        let k = match &self.intents[i] {
            Intent::Push { name, merged: _ } => position_of(&self.work.unapplied, name),
            _ => self.work.unapplied.len(),
        };
        if k >= self.work.unapplied.len() {
            self.aborted = true;
            return Err(Error::NotFound);
        }
        match outcome {
            PushOutcome::Clean(c) => {
                self.written = self.written + 1;
                self.work.record_push(k, c);
                self.next = i + 1;
                Ok(())
            },
            PushOutcome::Conflict(c) => {
                if self.conflict_mode == ConflictMode::Allow {
                    self.written = self.written + 1;
                    self.work.record_push(k, c);
                    self.conflicted = true;
                    self.next = self.intents.len();
                    Ok(())
                } else {
                    self.aborted = true;
                    Err(Error::MergeConflict { written: self.written })
                }
            },
            PushOutcome::Failed => {
                self.aborted = true;
                Err(Error::RepositoryWriteFailure { written: self.written })
            },
        }
    }

    /// Records the new patch of the next step.
    pub fn record_new(&mut self) -> (r: Result<(), Error>)
        requires
            old(self).wf(),
            !old(self).finished(),
            old(self).intents@[old(self).next as int] is New,
        ensures
            final(self).wf(),
            final(self).same_plan(old(self)),
            final(self).written == old(self).written,
            final(self).conflicted == old(self).conflicted,
            ({
                let step = old(self).intents@[old(self).next as int];
                &&& !old(self).work.has(step->New_name@) ==> {
                    &&& r is Ok
                    &&& final(self).work@ == old(self).work@.with_new(
                        step->New_name@,
                        step->New_commit@,
                    )
                    &&& final(self).next == old(self).next + 1
                    &&& !final(self).aborted
                }
                &&& old(self).work.has(step->New_name@) ==> {
                    &&& r == Err::<(), Error>(Error::PatchExists)
                    &&& final(self).aborted
                    &&& final(self).work == old(self).work
                }
            }),
    {
        let i = self.next;
        let len = self.intents.len();
        assert(i < len);
        let (name, commit) = match &self.intents[i] {
            Intent::New { name, commit } => (name.copy(), commit.clone()),
            Intent::Pop { name } => (name.copy(), self.work.head.clone()),
            Intent::Push { name, merged: _ } => (name.copy(), self.work.head.clone()),
        };
        if has_desc(&self.work.patches, &name) {
            self.aborted = true;
            return Err(Error::PatchExists);
        }
        self.work.record_new(name, commit);
        self.next = i + 1;
        Ok(())
    }
}

impl StackTransaction {
    /// Starts carrying out the recorded steps. Where the work tree and index take part and
    /// local changes may not be discarded, a dirty index or work tree stops it before anything
    /// is changed.
    pub fn execute(self, index_clean: bool, worktree_clean: bool) -> (r: Result<Execution, Error>)
        requires
            self.stack.has_descs(),
        ensures
            ({
                let checks = self.use_index_and_worktree && !self.discard_changes;
                &&& checks && !index_clean ==> r == Err::<Execution, Error>(Error::DirtyIndex)
                &&& checks && index_clean && !worktree_clean ==> r == Err::<Execution, Error>(
                    Error::DirtyWorktree,
                )
                &&& !(checks && !(index_clean && worktree_clean)) ==> {
                    &&& r is Ok
                    &&& r->Ok_0.wf()
                    &&& r->Ok_0.stored == self.stack
                    &&& r->Ok_0.work@ == self.stack@
                    &&& r->Ok_0.intents == self.intents
                    &&& r->Ok_0.conflict_mode == self.conflict_mode
                    &&& r->Ok_0.next == 0
                    &&& r->Ok_0.written == 0
                    &&& !r->Ok_0.conflicted
                    &&& !r->Ok_0.aborted
                }
            }),
    {
        if self.use_index_and_worktree && !self.discard_changes {
            if !index_clean {
                return Err(Error::DirtyIndex);
            }
            if !worktree_clean {
                return Err(Error::DirtyWorktree);
            }
        }
        let work = self.stack.copy();
        assert(self.stack.wf() ==> work.wf());
        Ok(
            Execution {
                stored: self.stack,
                work,
                intents: self.intents,
                next: 0,
                written: 0,
                conflict_mode: self.conflict_mode,
                conflicted: false,
                aborted: false,
            },
        )
    }
}

} // verus!
