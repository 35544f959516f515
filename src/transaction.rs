use indexmap::IndexSet;
use vstd::prelude::*;

use crate::error::Error;
use crate::indexset::{set_has, set_names};
use crate::patchname::{copy_names, lemma_names_of_push, names_of, PatchName};
use crate::resolve::has_desc;
use crate::stack::StackState;

verus! {

/// Whether a push that conflicts is left for the user to resolve or ends the transaction.
#[derive(Clone, Copy, Debug, PartialEq, Eq, Structural)]
pub enum ConflictMode {
    Disallow,
    Allow,
}

/// One recorded step of a transaction.
#[derive(Clone, Debug)]
pub enum Intent {
    /// Apply the patch on top of the stack; `merged` says its change is there already.
    Push { name: PatchName, merged: bool },
    /// Take the top patch off the stack.
    Pop { name: PatchName },
    /// Put a patch that was just committed as `commit` on top of the stack.
    New { name: PatchName, commit: String },
}

/// The index of the first element of `a` that is in `s`, or the length of `a`.
pub open spec fn first_in(a: Seq<Seq<char>>, s: Set<Seq<char>>) -> int
    decreases a.len(),
{
    if a.len() == 0 || s.contains(a[0]) {
        0
    } else {
        1 + first_in(a.skip(1), s)
    }
}

/// The index of the first occurrence of `x` in `a`, or the length of `a`.
pub open spec fn index_in(a: Seq<Seq<char>>, x: Seq<char>) -> int {
    first_in(a, set![x])
}

/// `first_in` is the point before which nothing is in the set, and at which something is.
pub proof fn lemma_first_in(a: Seq<Seq<char>>, s: Set<Seq<char>>, i: int)
    requires
        0 <= i <= a.len(),
        forall|j: int| 0 <= j < i ==> !s.contains(#[trigger] a[j]),
        i < a.len() ==> s.contains(a[i]),
    ensures
        first_in(a, s) == i,
    decreases i,
{
    if i > 0 {
        assert(!s.contains(a[0]));
        let t = a.skip(1);
        assert forall|j: int| 0 <= j < i - 1 implies !s.contains(#[trigger] t[j]) by {
            assert(t[j] == a[j + 1]);
        }
        if i < a.len() {
            assert(t[i - 1] == a[i]);
        }
        lemma_first_in(t, s, i - 1);
    }
}

/// `intents` holds after `prefix` a pop of each name of `popped`, last first.
pub open spec fn pops_of(intents: Seq<Intent>, prefix: int, popped: Seq<Seq<char>>) -> bool {
    &&& intents.len() == prefix + popped.len()
    &&& forall|k: int|
        0 <= k < popped.len() ==> {
            &&& #[trigger] intents[prefix + k] is Pop
            &&& intents[prefix + k]->Pop_name@ == popped[popped.len() - 1 - k]
        }
}

/// A transaction being planned: the snapshot that it starts from, its settings, the lists of
/// applied and unapplied patches as the recorded steps leave them, and those steps in order.
pub struct StackTransaction {
    pub stack: StackState,
    pub conflict_mode: ConflictMode,
    pub discard_changes: bool,
    pub use_index_and_worktree: bool,
    pub applied: Vec<PatchName>,
    pub unapplied: Vec<PatchName>,
    pub intents: Vec<Intent>,
}

impl StackTransaction {
    /// Opens a transaction on `stack` with no steps recorded.
    pub fn make_context(
        stack: StackState,
        conflict_mode: ConflictMode,
        discard_changes: bool,
        use_index_and_worktree: bool,
    ) -> (r: StackTransaction)
        ensures
            r.stack == stack,
            names_of(r.applied@) == names_of(stack.applied@),
            names_of(r.unapplied@) == names_of(stack.unapplied@),
            r.intents@.len() == 0,
            r.conflict_mode == conflict_mode,
            r.discard_changes == discard_changes,
            r.use_index_and_worktree == use_index_and_worktree,
    {
        let applied = copy_names(&stack.applied);
        let unapplied = copy_names(&stack.unapplied);
        StackTransaction {
            stack,
            conflict_mode,
            discard_changes,
            use_index_and_worktree,
            applied,
            unapplied,
            intents: Vec::new(),
        }
    }

    /// The applied patches as the recorded steps leave them, bottom first.
    pub fn applied(&self) -> (r: &Vec<PatchName>)
        ensures
            r == &self.applied,
    {
        &self.applied
    }

    /// The unapplied patches as the recorded steps leave them, next to push first.
    pub fn unapplied(&self) -> (r: &Vec<PatchName>)
        ensures
            r == &self.unapplied,
    {
        &self.unapplied
    }

    /// Records popping the applied patches from the first one in `to_pop` up to the top.
    /// They go, in their order, to the front of the unapplied patches; the pops are recorded
    /// from the top down.
    pub fn pop_patches(&mut self, to_pop: &IndexSet<String>)
        ensures
            ({
                let a = names_of(old(self).applied@);
                let p = first_in(a, set_names(*to_pop));
                &&& names_of(final(self).applied@) == a.take(p)
                &&& names_of(final(self).unapplied@) == a.skip(p) + names_of(
                    old(self).unapplied@,
                )
                &&& final(self).intents@.take(old(self).intents@.len() as int)
                    == old(self).intents@
                &&& pops_of(final(self).intents@, old(self).intents@.len() as int, a.skip(p))
            }),
            final(self).stack == old(self).stack,
            final(self).conflict_mode == old(self).conflict_mode,
            final(self).discard_changes == old(self).discard_changes,
            final(self).use_index_and_worktree == old(self).use_index_and_worktree,
    {
        let ghost a = names_of(self.applied@);
        let ghost u = names_of(self.unapplied@);
        let ghost s = set_names(*to_pop);
        let ghost n0 = self.intents@.len() as int;
        let mut p: usize = 0;
        let mut found = false;
        while p < self.applied.len() && !found
            invariant
                p <= self.applied@.len(),
                a == names_of(self.applied@),
                s == set_names(*to_pop),
                forall|j: int| 0 <= j < p ==> !s.contains(#[trigger] a[j]),
                found ==> p < a.len() && s.contains(a[p as int]),
            decreases self.applied@.len() - p + if found { 0int } else { 1int },
        {
            assert(a[p as int] == self.applied@[p as int]@);
            let hit = set_has(to_pop, &self.applied[p]);
            assert(hit == s.contains(a[p as int]));
            if hit {
                found = true;
            } else {
                p = p + 1;
            }
        }
        proof {
            lemma_first_in(a, s, p as int);
        }
        let ghost total = self.applied@.len() as int;
        while self.applied.len() > p
            invariant
                p <= self.applied@.len() <= total,
                total == a.len(),
                a == names_of(old(self).applied@),
                u == names_of(old(self).unapplied@),
                s == set_names(*to_pop),
                p == first_in(a, s),
                n0 == old(self).intents@.len(),
                names_of(self.applied@) == a.take(self.applied@.len() as int),
                names_of(self.unapplied@) == a.subrange(self.applied@.len() as int, total) + u,
                self.intents@.take(n0) == old(self).intents@,
                pops_of(
                    self.intents@,
                    n0,
                    a.subrange(self.applied@.len() as int, total),
                ),
                self.stack == old(self).stack,
                self.conflict_mode == old(self).conflict_mode,
                self.discard_changes == old(self).discard_changes,
                self.use_index_and_worktree == old(self).use_index_and_worktree,
            decreases self.applied.len(),
        {
            let ghost before = self.intents@;
            let ghost len = self.applied@.len() as int;
            let ghost av = self.applied@;
            let ghost uv = self.unapplied@;
            let name = self.applied.pop().unwrap();
            assert(names_of(self.applied@) == a.take(len - 1)) by {
                assert(names_of(self.applied@) =~= a.take(len).drop_last());
            }
            assert(name@ == a[len - 1]) by {
                assert(names_of(av)[len - 1] == av[len - 1]@);
                assert(a.take(len)[len - 1] == a[len - 1]);
            }
            assert(before.len() == n0 + (total - len));
            self.intents.push(Intent::Pop { name: name.copy() });
            assert(self.intents@ == before.push(self.intents@.last()));
            self.unapplied.insert(0, name);
            assert(names_of(self.unapplied@) =~= seq![name@] + names_of(uv));
            assert(seq![a[len - 1]] + a.subrange(len, total) =~= a.subrange(len - 1, total));
            assert(names_of(self.unapplied@) =~= a.subrange(len - 1, total) + u);
            assert(self.intents@.take(n0) =~= before.take(n0));
            let ghost popped = a.subrange(len - 1, total);
            assert forall|k: int| 0 <= k < popped.len() implies {
                &&& #[trigger] self.intents@[n0 + k] is Pop
                &&& self.intents@[n0 + k]->Pop_name@ == popped[popped.len() - 1 - k]
            } by {
                if k < popped.len() - 1 {
                    assert(self.intents@[n0 + k] == before[n0 + k]);
                    assert(a.subrange(len, total)[popped.len() - 2 - k] == popped[popped.len() - 1
                        - k]);
                }
            }
        }
        assert(a.take(p as int) == a.take(self.applied@.len() as int));
        assert(a.subrange(p as int, total) =~= a.skip(p as int));
    }
}

/// The first position of `name` in `v`, or the length of `v`.
pub fn position_of(v: &Vec<PatchName>, name: &PatchName) -> (r: usize)
    ensures
        r == index_in(names_of(v@), name@),
{
    let ghost a = names_of(v@);
    let mut i: usize = 0;
    while i < v.len()
        invariant
            i <= v@.len(),
            a == names_of(v@),
            forall|j: int| 0 <= j < i ==> !set![name@].contains(#[trigger] a[j]),
        decreases v.len() - i,
    {
        assert(a[i as int] == v@[i as int]@);
        if v[i].same(name) {
            proof {
                lemma_first_in(a, set![name@], i as int);
            }
            return i;
        }
        i = i + 1;
    }
    proof {
        lemma_first_in(a, set![name@], i as int);
    }
    i
}

impl StackTransaction {
    /// Records pushing the unapplied patch `name` on top of the applied ones. `already_merged`
    /// says that its change is in the head already, so that no merge is needed. A name that
    /// is not unapplied is not found.
    pub fn push_patch(&mut self, name: &PatchName, already_merged: bool) -> (r: Result<(), Error>)
        ensures
            ({
                let a = names_of(old(self).applied@);
                let u = names_of(old(self).unapplied@);
                let k = index_in(u, name@);
                &&& k >= u.len() ==> r == Err::<(), Error>(Error::NotFound) && *final(self)
                    == *old(self)
                &&& k < u.len() ==> {
                    &&& r is Ok
                    &&& names_of(final(self).applied@) == a.push(name@)
                    &&& names_of(final(self).unapplied@) == u.remove(k)
                    &&& final(self).intents@.drop_last() == old(self).intents@
                    &&& final(self).intents@.len() == old(self).intents@.len() + 1
                    &&& final(self).intents@.last() is Push
                    &&& final(self).intents@.last()->Push_name@ == name@
                    &&& final(self).intents@.last()->Push_merged == already_merged
                    &&& final(self).stack == old(self).stack
                    &&& final(self).conflict_mode == old(self).conflict_mode
                    &&& final(self).discard_changes == old(self).discard_changes
                    &&& final(self).use_index_and_worktree == old(self).use_index_and_worktree
                }
            }),
    {
        let k = position_of(&self.unapplied, name);
        if k >= self.unapplied.len() {
            return Err(Error::NotFound);
        }
        let ghost uv = self.unapplied@;
        let taken = self.unapplied.remove(k);
        assert(names_of(self.unapplied@) =~= names_of(uv).remove(k as int));
        proof {
            lemma_names_of_push(self.applied@, taken);
            assert(names_of(uv)[k as int] == uv[k as int]@);
            lemma_first_in_hit(names_of(uv), set![name@]);
        }
        self.applied.push(taken);
        self.intents.push(Intent::Push { name: name.copy(), merged: already_merged });
        assert(self.intents@.drop_last() =~= old(self).intents@);
        Ok(())
    }

    /// Records a new patch `name`, already committed as `commit`, on top of the applied ones.
    /// A name that the stack or an earlier step already has is refused.
    pub fn new_applied(&mut self, name: &PatchName, commit: String) -> (r: Result<(), Error>)
        ensures
            ({
                let a = names_of(old(self).applied@);
                let taken = old(self).stack.has(name@) || a.contains(name@);
                &&& taken ==> r == Err::<(), Error>(Error::PatchExists) && *final(self)
                    == *old(self)
                &&& !taken ==> {
                    &&& r is Ok
                    &&& names_of(final(self).applied@) == a.push(name@)
                    &&& final(self).unapplied@ == old(self).unapplied@
                    &&& final(self).intents@.drop_last() == old(self).intents@
                    &&& final(self).intents@.len() == old(self).intents@.len() + 1
                    &&& final(self).intents@.last() is New
                    &&& final(self).intents@.last()->New_name@ == name@
                    &&& final(self).intents@.last()->New_commit@ == commit@
                    &&& final(self).stack == old(self).stack
                    &&& final(self).conflict_mode == old(self).conflict_mode
                    &&& final(self).discard_changes == old(self).discard_changes
                    &&& final(self).use_index_and_worktree == old(self).use_index_and_worktree
                }
            }),
    {
        if has_desc(&self.stack.patches, name) || position_of(&self.applied, name)
            < self.applied.len() {
            proof {
                let a = names_of(self.applied@);
                if index_in(a, name@) < a.len() {
                    lemma_first_in_hit(a, set![name@]);
                }
            }
            return Err(Error::PatchExists);
        }
        let c = name.copy();
        proof {
            let a = names_of(self.applied@);
            if a.contains(name@) {
                lemma_index_in_present(a, name@);
            }
            lemma_names_of_push(self.applied@, c);
        }
        self.applied.push(c);
        self.intents.push(Intent::New { name: name.copy(), commit });
        assert(self.intents@.drop_last() =~= old(self).intents@);
        Ok(())
    }
}

/// A name that is in a list has its index inside it.
pub proof fn lemma_index_in_present(a: Seq<Seq<char>>, x: Seq<char>)
    requires
        a.contains(x),
    ensures
        index_in(a, x) < a.len(),
        a[index_in(a, x)] == x,
{
    lemma_index_in_bounds(a, x);
    if index_in(a, x) >= a.len() {
        lemma_index_in_absent(a, x);
    }
    lemma_first_in_hit(a, set![x]);
}

/// A name whose index is the length of the list is not in it.
pub proof fn lemma_index_in_absent(a: Seq<Seq<char>>, x: Seq<char>)
    requires
        index_in(a, x) >= a.len(),
    ensures
        !a.contains(x),
{
    lemma_first_in_before(a, set![x]);
}

proof fn lemma_index_in_bounds(a: Seq<Seq<char>>, x: Seq<char>)
    ensures
        0 <= index_in(a, x) <= a.len(),
{
    lemma_first_in_bounds(a, set![x]);
}

proof fn lemma_first_in_bounds(a: Seq<Seq<char>>, s: Set<Seq<char>>)
    ensures
        0 <= first_in(a, s) <= a.len(),
    decreases a.len(),
{
    if a.len() > 0 && !s.contains(a[0]) {
        lemma_first_in_bounds(a.skip(1), s);
    }
}

/// Nothing before `first_in` is in the set.
pub proof fn lemma_first_in_before(a: Seq<Seq<char>>, s: Set<Seq<char>>)
    ensures
        forall|j: int| 0 <= j < first_in(a, s) && j < a.len() ==> !s.contains(#[trigger] a[j]),
    decreases a.len(),
{
    if a.len() > 0 && !s.contains(a[0]) {
        let t = a.skip(1);
        lemma_first_in_before(t, s);
        assert forall|j: int| 0 <= j < first_in(a, s) && j < a.len() implies !s.contains(
            #[trigger] a[j],
        ) by {
            if j > 0 {
                assert(a[j] == t[j - 1]);
            }
        }
    }
}

/// What stands at `first_in`, if anything does, is in the set.
pub proof fn lemma_first_in_hit(a: Seq<Seq<char>>, s: Set<Seq<char>>)
    ensures
        first_in(a, s) < a.len() ==> s.contains(a[first_in(a, s)]),
    decreases a.len(),
{
    if a.len() > 0 && !s.contains(a[0]) {
        let t = a.skip(1);
        lemma_first_in_hit(t, s);
        lemma_first_in_bounds(t, s);
        if first_in(a, s) < a.len() {
            assert(a[first_in(a, s)] == t[first_in(t, s)]);
        }
    }
}

} // verus!
