use vstd::prelude::*;

use crate::patchname::{copy_names, lemma_names_of_push, names_of, PatchName};

verus! {

/// A patch and the commit that holds its change, as a hexadecimal commit id.
#[derive(Clone, Debug)]
pub struct PatchDesc {
    pub name: PatchName,
    pub commit: String,
}

/// The names of the patches that a descriptor list describes, in its order.
pub open spec fn desc_names(d: Seq<PatchDesc>) -> Seq<Seq<char>> {
    d.map_values(|p: PatchDesc| p.name@)
}

/// The commit recorded for `name`, if a descriptor holds it.
pub open spec fn commit_of(d: Seq<PatchDesc>, name: Seq<char>) -> Option<Seq<char>>
    decreases d.len(),
{
    if d.len() == 0 {
        None
    } else if d.last().name@ == name {
        Some(d.last().commit@)
    } else {
        commit_of(d.drop_last(), name)
    }
}

/// The state of a stack as it is stored: the applied patches from bottom to top, the
/// unapplied ones in the order in which they would be pushed, the hidden ones, one
/// descriptor for each patch, the commit that the stack stands on and the branch head.
#[derive(Clone, Debug)]
pub struct StackState {
    pub applied: Vec<PatchName>,
    pub unapplied: Vec<PatchName>,
    pub hidden: Vec<PatchName>,
    pub patches: Vec<PatchDesc>,
    pub base: String,
    pub head: String,
}

/// The abstract state of a stack: its three lists of names, the commit of each known
/// patch, the commit that the stack stands on and the branch head.
pub struct StackView {
    pub applied: Seq<Seq<char>>,
    pub unapplied: Seq<Seq<char>>,
    pub hidden: Seq<Seq<char>>,
    pub commits: Map<Seq<char>, Seq<char>>,
    pub base: Seq<char>,
    pub head: Seq<char>,
}

/// The commit of each patch that a descriptor list describes.
pub open spec fn desc_map(d: Seq<PatchDesc>) -> Map<Seq<char>, Seq<char>> {
    Map::new(|n: Seq<char>| commit_of(d, n) is Some, |n: Seq<char>| commit_of(d, n)->Some_0)
}

impl StackView {
    /// Every name of the three lists, applied first, then unapplied, then hidden.
    pub open spec fn all_names(self) -> Seq<Seq<char>> {
        self.applied + self.unapplied + self.hidden
    }

    /// The commit that the branch head should be: that of the top applied patch, or the base.
    pub open spec fn expected_head(self) -> Seq<char> {
        if self.applied.len() == 0 {
            self.base
        } else {
            self.commits[self.applied.last()]
        }
    }

    /// The three lists part the known patches, and the head is where the stack says it is.
    pub open spec fn wf(self) -> bool {
        &&& self.all_names().no_duplicates()
        &&& self.all_names().to_set() == self.commits.dom()
        &&& self.head == self.expected_head()
    }

    /// The state after the `k`-th unapplied patch is pushed and committed as `commit`.
    pub open spec fn pushed(self, k: int, commit: Seq<char>) -> StackView {
        let name = self.unapplied[k];
        StackView {
            applied: self.applied.push(name),
            unapplied: self.unapplied.remove(k),
            commits: self.commits.insert(name, commit),
            head: commit,
            ..self
        }
    }

    /// The state after the top applied patch is popped to the front of the unapplied ones.
    pub open spec fn popped(self) -> StackView {
        let name = self.applied.last();
        let rest = self.applied.drop_last();
        StackView {
            applied: rest,
            unapplied: seq![name] + self.unapplied,
            head: if rest.len() == 0 {
                self.base
            } else {
                self.commits[rest.last()]
            },
            ..self
        }
    }

    /// The state after a new patch `name`, committed as `commit`, is put on top.
    pub open spec fn with_new(self, name: Seq<char>, commit: Seq<char>) -> StackView {
        StackView {
            applied: self.applied.push(name),
            commits: self.commits.insert(name, commit),
            head: commit,
            ..self
        }
    }
}

impl View for StackState {
    type V = StackView;

    open spec fn view(&self) -> StackView {
        StackView {
            applied: names_of(self.applied@),
            unapplied: names_of(self.unapplied@),
            hidden: names_of(self.hidden@),
            commits: desc_map(self.patches@),
            base: self.base@,
            head: self.head@,
        }
    }
}

impl StackState {
    /// The stored state is consistent: one descriptor for each name, the three lists part
    /// the known patches, and the branch head is where the stack says it is.
    pub open spec fn wf(&self) -> bool {
        &&& desc_names(self.patches@).no_duplicates()
        &&& self@.wf()
    }

    /// Whether a patch of this name is known, in any of the three lists.
    pub open spec fn has(&self, name: Seq<char>) -> bool {
        desc_names(self.patches@).contains(name)
    }

    /// One descriptor for each name, and one for every applied and unapplied patch: what
    /// pushes and pops need to find commits, and keep.
    pub open spec fn has_descs(&self) -> bool {
        &&& desc_names(self.patches@).no_duplicates()
        &&& forall|i: int| 0 <= i < self.applied@.len() ==> self.has(#[trigger] self.applied@[i]@)
        &&& forall|i: int|
            0 <= i < self.unapplied@.len() ==> self.has(#[trigger] self.unapplied@[i]@)
    }
}

/// A consistent state has a descriptor for every applied and unapplied patch.
pub proof fn lemma_wf_has_descs(s: StackState)
    requires
        s.wf(),
    ensures
        s.has_descs(),
{
    let v = s@;
    let a = v.all_names();
    assert forall|i: int| 0 <= i < s.applied@.len() implies s.has(#[trigger] s.applied@[i]@) by {
        assert(a[i] == s.applied@[i]@);
        assert(a.to_set().contains(a[i]));
        lemma_commit_of_known(s.patches@, a[i]);
    }
    assert forall|i: int| 0 <= i < s.unapplied@.len() implies s.has(
        #[trigger] s.unapplied@[i]@,
    ) by {
        assert(a[v.applied.len() + i] == s.unapplied@[i]@);
        assert(a.to_set().contains(a[v.applied.len() + i]));
        lemma_commit_of_known(s.patches@, a[v.applied.len() + i]);
    }
}

/// Pushing the next unapplied patch and popping it right away gives back the applied and
/// unapplied lists, in their order, and the branch head.
pub proof fn lemma_push_then_pop(v: StackView, commit: Seq<char>)
    requires
        v.wf(),
        v.unapplied.len() > 0,
    ensures
        v.pushed(0, commit).popped().applied == v.applied,
        v.pushed(0, commit).popped().unapplied == v.unapplied,
        v.pushed(0, commit).popped().head == v.head,
{
    let name = v.unapplied[0];
    let p = v.pushed(0, commit);
    assert(p.applied.drop_last() == v.applied);
    assert(seq![name] + v.unapplied.remove(0) == v.unapplied);
    if v.applied.len() > 0 {
        let top = v.applied.last();
        let all = v.all_names();
        assert(all[v.applied.len() - 1] == top);
        assert(all[v.applied.len() as int] == name);
        assert(top != name);
    }
}

/// Two lists with the same elements, counted with multiplicity, agree on having no
/// duplicates and on their sets.
proof fn lemma_same_multiset(s: Seq<Seq<char>>, t: Seq<Seq<char>>)
    requires
        s.no_duplicates(),
        t.to_multiset() == s.to_multiset(),
    ensures
        t.no_duplicates(),
        t.to_set() == s.to_set(),
{
    broadcast use vstd::seq_lib::group_to_multiset_ensures;

    s.lemma_multiset_has_no_duplicates();
    t.lemma_multiset_has_no_duplicates_conv();
    assert forall|x: Seq<char>| t.to_set().contains(x) == s.to_set().contains(x) by {
        assert(t.contains(x) == (t.to_multiset().count(x) > 0));
        assert(s.contains(x) == (s.to_multiset().count(x) > 0));
    }
    assert(t.to_set() =~= s.to_set());
}

/// Pushing an unapplied patch keeps a consistent state consistent.
pub proof fn lemma_pushed_wf(v: StackView, k: int, commit: Seq<char>)
    requires
        v.wf(),
        0 <= k < v.unapplied.len(),
    ensures
        v.pushed(k, commit).wf(),
{
    broadcast use vstd::seq_lib::group_to_multiset_ensures;
    broadcast use vstd::seq_lib::lemma_multiset_commutative;

    let p = v.pushed(k, commit);
    let name = v.unapplied[k];
    assert(v.unapplied.to_multiset().count(name) > 0);
    assert(p.all_names().to_multiset() =~= v.all_names().to_multiset());
    lemma_same_multiset(v.all_names(), p.all_names());
    assert(v.all_names()[v.applied.len() + k] == name);
    assert(v.all_names().to_set().contains(name));
    assert(p.commits.dom() =~= v.commits.dom());
}

/// Popping the top patch keeps a consistent state consistent.
pub proof fn lemma_popped_wf(v: StackView)
    requires
        v.wf(),
        v.applied.len() > 0,
    ensures
        v.popped().wf(),
{
    broadcast use vstd::seq_lib::group_to_multiset_ensures;
    broadcast use vstd::seq_lib::lemma_multiset_commutative;

    let p = v.popped();
    assert(v.applied.drop_last().push(v.applied.last()) == v.applied);
    assert(seq![v.applied.last()] + v.unapplied == v.unapplied.insert(0, v.applied.last()));
    assert(p.all_names().to_multiset() =~= v.all_names().to_multiset());
    lemma_same_multiset(v.all_names(), p.all_names());
}

/// Adding a patch of a new name on top keeps a consistent state consistent.
pub proof fn lemma_with_new_wf(v: StackView, name: Seq<char>, commit: Seq<char>)
    requires
        v.wf(),
        !v.commits.dom().contains(name),
    ensures
        v.with_new(name, commit).wf(),
{
    broadcast use vstd::seq_lib::group_to_multiset_ensures;
    broadcast use vstd::seq_lib::lemma_multiset_commutative;

    let p = v.with_new(name, commit);
    let a = v.all_names();
    let b = p.all_names();
    assert(!a.to_set().contains(name));
    assert(!a.contains(name));
    assert(b.to_multiset() =~= a.to_multiset().insert(name));
    assert(b.to_multiset() == a.push(name).to_multiset());
    assert(a.push(name).no_duplicates()) by {
        assert forall|i: int, j: int| 0 <= i < j < a.len() + 1 implies a.push(name)[i] != a.push(
            name,
        )[j] by {
            if j == a.len() {
                assert(a.push(name)[i] == a[i]);
            } else {
                assert(a.push(name)[i] == a[i] && a.push(name)[j] == a[j]);
            }
        }
    }
    lemma_same_multiset(a.push(name), b);
    assert forall|x: Seq<char>| a.push(name).to_set().contains(x) == a.to_set().insert(
        name,
    ).contains(x) by {
        if a.contains(x) {
            let i = choose|i: int| 0 <= i < a.len() && a[i] == x;
            assert(a.push(name)[i] == x);
        }
        if a.push(name).contains(x) && x != name {
            let i = choose|i: int| 0 <= i < a.len() + 1 && a.push(name)[i] == x;
            assert(a[i] == x);
        }
        assert(a.push(name)[a.len() as int] == name);
    }
    assert(a.push(name).to_set() =~= a.to_set().insert(name));
    assert(p.commits.dom() =~= v.commits.dom().insert(name));
}

proof fn lemma_commit_of_push(d: Seq<PatchDesc>, x: PatchDesc, n: Seq<char>)
    ensures
        commit_of(d.push(x), n) == if n == x.name@ {
            Some(x.commit@)
        } else {
            commit_of(d, n)
        },
{
    assert(d.push(x).drop_last() == d);
}

pub(crate) proof fn lemma_commit_of_known(d: Seq<PatchDesc>, n: Seq<char>)
    ensures
        commit_of(d, n) is Some <==> desc_names(d).contains(n),
    decreases d.len(),
{
    if d.len() > 0 {
        lemma_commit_of_known(d.drop_last(), n);
        assert(desc_names(d.drop_last()) == desc_names(d).drop_last());
        if d.last().name@ == n {
            assert(desc_names(d)[d.len() - 1] == n);
        } else if desc_names(d).contains(n) {
            let i = choose|i: int| 0 <= i < desc_names(d).len() && desc_names(d)[i] == n;
            assert(desc_names(d.drop_last())[i] == n);
        }
    }
}

proof fn lemma_commit_of_update(d: Seq<PatchDesc>, e: Seq<PatchDesc>, j: int, n: Seq<char>)
    requires
        desc_names(d).no_duplicates(),
        0 <= j < d.len(),
        e.len() == d.len(),
        e[j].name@ == d[j].name@,
        forall|i: int| 0 <= i < d.len() && i != j ==> e[i] == d[i],
    ensures
        commit_of(e, n) == if n == d[j].name@ {
            Some(e[j].commit@)
        } else {
            commit_of(d, n)
        },
    decreases d.len(),
{
    let m = d.len() - 1;
    if j < m {
        assert(desc_names(d)[j] == d[j].name@);
        assert(desc_names(d)[m] == d[m].name@);
        if n != d.last().name@ {
            let dd = d.drop_last();
            assert(desc_names(dd) == desc_names(d).drop_last());
            assert(desc_names(dd).no_duplicates());
            lemma_commit_of_update(dd, e.drop_last(), j, n);
        }
    } else {
        assert(e.drop_last() == d.drop_last());
    }
}

/// Finds the descriptor of `name`.
fn find_desc(d: &Vec<PatchDesc>, name: &PatchName) -> (r: Option<usize>)
    ensures
        r is Some ==> r->Some_0 < d@.len() && d@[r->Some_0 as int].name@ == name@,
        r is None ==> !desc_names(d@).contains(name@),
{
    let mut i: usize = 0;
    while i < d.len()
        invariant
            i <= d@.len(),
            forall|j: int| 0 <= j < i ==> d@[j].name@ != name@,
        decreases d.len() - i,
    {
        if d[i].name.same(name) {
            return Some(i);
        }
        i = i + 1;
    }
    assert forall|j: int| 0 <= j < desc_names(d@).len() implies desc_names(d@)[j] != name@ by {
        assert(d@[j].name@ != name@);
    }
    None
}

/// The commit recorded for `name`.
pub fn lookup_commit(d: &Vec<PatchDesc>, name: &PatchName) -> (r: Option<String>)
    requires
        desc_names(d@).no_duplicates(),
    ensures
        r is Some <==> commit_of(d@, name@) is Some,
        r is Some ==> r->Some_0@ == commit_of(d@, name@)->Some_0,
{
    proof {
        lemma_commit_of_known(d@, name@);
    }
    match find_desc(d, name) {
        None => None,
        Some(j) => {
            proof {
                lemma_commit_of_update(d@, d@, j as int, name@);
            }
            Some(d[j].commit.clone())
        },
    }
}

impl StackState {
    /// Records that the `k`-th unapplied patch was pushed and committed as `commit`.
    pub fn record_push(&mut self, k: usize, commit: String)
        requires
            old(self).has_descs(),
            k < old(self).unapplied@.len(),
        ensures
            final(self)@ == old(self)@.pushed(k as int, commit@),
            final(self).has_descs(),
            old(self).wf() ==> final(self).wf(),
            desc_names(final(self).patches@) == desc_names(old(self).patches@),
    {
        let ghost v = self@;
        let name = self.unapplied.remove(k);
        proof {
            assert(names_of(self.unapplied@) =~= v.unapplied.remove(k as int));
            lemma_commit_of_known(self.patches@, name@);
        }
        let j = find_desc(&self.patches, &name).unwrap();
        let ghost d = self.patches@;
        let entry = PatchDesc { name: self.patches[j].name.copy(), commit: commit.clone() };
        self.patches.set(j, entry);
        proof {
            assert forall|n: Seq<char>|
                commit_of(self.patches@, n) == (if n == name@ {
                    Some(commit@)
                } else {
                    commit_of(d, n)
                }) by {
                lemma_commit_of_update(d, self.patches@, j as int, n);
            }
            assert(desc_map(self.patches@) =~= desc_map(d).insert(name@, commit@));
            assert(desc_names(self.patches@) =~= desc_names(d));
            lemma_names_of_push(self.applied@, name);
            if v.wf() && desc_names(d).no_duplicates() {
                lemma_pushed_wf(v, k as int, commit@);
            }
        }
        self.applied.push(name);
        self.head = commit;
    }

    /// Records that the top applied patch was popped to the front of the unapplied ones.
    pub fn record_pop(&mut self)
        requires
            old(self).has_descs(),
            old(self).applied@.len() > 0,
        ensures
            final(self)@ == old(self)@.popped(),
            final(self).has_descs(),
            old(self).wf() ==> final(self).wf(),
            desc_names(final(self).patches@) == desc_names(old(self).patches@),
    {
        let ghost v = self@;
        let name = self.applied.pop().unwrap();
        proof {
            assert(names_of(self.applied@) =~= v.applied.drop_last());
        }
        if self.applied.len() == 0 {
            self.head = self.base.clone();
        } else {
            let top = self.applied.len() - 1;
            proof {
                lemma_commit_of_known(self.patches@, self.applied@[top as int]@);
            }
            let c = lookup_commit(&self.patches, &self.applied[top]).unwrap();
            self.head = c;
        }
        self.unapplied.insert(0, name);
        proof {
            assert(names_of(self.unapplied@) =~= seq![name@] + v.unapplied);
            if v.wf() {
                lemma_popped_wf(v);
            }
        }
    }

    /// Records a new patch `name`, committed as `commit`, on top of the applied ones.
    pub fn record_new(&mut self, name: PatchName, commit: String)
        requires
            old(self).has_descs(),
            !old(self).has(name@),
        ensures
            final(self)@ == old(self)@.with_new(name@, commit@),
            final(self).has_descs(),
            old(self).wf() ==> final(self).wf(),
            desc_names(final(self).patches@) == desc_names(old(self).patches@).push(name@),
    {
        let ghost d = self.patches@;
        let ghost v = self@;
        proof {
            lemma_commit_of_known(d, name@);
            if v.wf() {
                lemma_with_new_wf(v, name@, commit@);
            }
        }
        let entry = PatchDesc { name: name.copy(), commit: commit.clone() };
        self.patches.push(entry);
        proof {
            assert forall|n: Seq<char>|
                commit_of(self.patches@, n) == (if n == name@ {
                    Some(commit@)
                } else {
                    commit_of(d, n)
                }) by {
                lemma_commit_of_push(d, entry, n);
            }
            assert(desc_map(self.patches@) =~= desc_map(d).insert(name@, commit@));
            assert(desc_names(self.patches@) =~= desc_names(d).push(name@));
            lemma_names_of_push(self.applied@, name);
        }
        self.applied.push(name);
        self.head = commit;
        proof {
            let dn = desc_names(self.patches@);
            let od = desc_names(d);
            assert forall|i: int, j: int| 0 <= i < dn.len() && 0 <= j < dn.len() && i != j implies dn[i]
                != dn[j] by {
                if i < od.len() && j < od.len() {
                    assert(dn[i] == od[i] && dn[j] == od[j]);
                } else if i < od.len() {
                    assert(dn[i] == od[i]);
                } else {
                    assert(dn[j] == od[j]);
                }
            }
            assert forall|i: int| 0 <= i < self.applied@.len() implies self.has(
                #[trigger] self.applied@[i]@,
            ) by {
                if i == self.applied@.len() - 1 {
                    assert(dn[od.len() as int] == name@);
                } else {
                    let k = choose|k: int| 0 <= k < od.len() && od[k] == self.applied@[i]@;
                    assert(dn[k] == od[k]);
                }
            }
            assert forall|i: int| 0 <= i < self.unapplied@.len() implies self.has(
                #[trigger] self.unapplied@[i]@,
            ) by {
                let k = choose|k: int| 0 <= k < od.len() && od[k] == self.unapplied@[i]@;
                assert(dn[k] == od[k]);
            }
        }
    }
}

impl StackState {
    /// A copy of the state.
    pub fn copy(&self) -> (r: StackState)
        ensures
            r@ == self@,
            desc_names(r.patches@) == desc_names(self.patches@),
            r.has_descs() == self.has_descs(),
    {
        let applied = copy_names(&self.applied);
        let unapplied = copy_names(&self.unapplied);
        let hidden = copy_names(&self.hidden);
        let mut patches: Vec<PatchDesc> = Vec::new();
        let mut i: usize = 0;
        while i < self.patches.len()
            invariant
                i <= self.patches@.len(),
                patches@.len() == i,
                forall|j: int|
                    0 <= j < i ==> (#[trigger] patches@[j]).name@ == self.patches@[j].name@
                        && patches@[j].commit@ == self.patches@[j].commit@,
            decreases self.patches.len() - i,
        {
            let d = PatchDesc {
                name: self.patches[i].name.copy(),
                commit: self.patches[i].commit.clone(),
            };
            patches.push(d);
            i = i + 1;
        }
        proof {
            lemma_same_descs(patches@, self.patches@);
        }
        let r = StackState {
            applied,
            unapplied,
            hidden,
            patches,
            base: self.base.clone(),
            head: self.head.clone(),
        };
        proof {
            assert(names_of(r.applied@).len() == r.applied@.len());
            assert(names_of(self.applied@).len() == self.applied@.len());
            assert(names_of(r.unapplied@).len() == r.unapplied@.len());
            assert(names_of(self.unapplied@).len() == self.unapplied@.len());
            assert forall|i: int| 0 <= i < r.applied@.len() implies r.applied@[i]@
                == self.applied@[i]@ by {
                assert(names_of(r.applied@)[i] == names_of(self.applied@)[i]);
            }
            assert forall|i: int| 0 <= i < r.unapplied@.len() implies r.unapplied@[i]@
                == self.unapplied@[i]@ by {
                assert(names_of(r.unapplied@)[i] == names_of(self.unapplied@)[i]);
            }
            assert(r.applied@.len() == self.applied@.len());
            assert(r.unapplied@.len() == self.unapplied@.len());
            if self.has_descs() {
                assert forall|i: int| 0 <= i < r.applied@.len() implies r.has(
                    #[trigger] r.applied@[i]@,
                ) by {
                    assert(self.has(self.applied@[i]@));
                }
                assert forall|i: int| 0 <= i < r.unapplied@.len() implies r.has(
                    #[trigger] r.unapplied@[i]@,
                ) by {
                    assert(self.has(self.unapplied@[i]@));
                }
            }
            if r.has_descs() {
                assert forall|i: int| 0 <= i < self.applied@.len() implies self.has(
                    #[trigger] self.applied@[i]@,
                ) by {
                    assert(r.has(r.applied@[i]@));
                }
                assert forall|i: int| 0 <= i < self.unapplied@.len() implies self.has(
                    #[trigger] self.unapplied@[i]@,
                ) by {
                    assert(r.has(r.unapplied@[i]@));
                }
            }
        }
        r
    }
}

proof fn lemma_same_descs(d: Seq<PatchDesc>, e: Seq<PatchDesc>)
    requires
        d.len() == e.len(),
        forall|j: int|
            0 <= j < d.len() ==> (#[trigger] d[j]).name@ == e[j].name@ && d[j].commit@ == e[j].commit@,
    ensures
        desc_names(d) == desc_names(e),
        desc_map(d) == desc_map(e),
        forall|n: Seq<char>| commit_of(d, n) == commit_of(e, n),
    decreases d.len(),
{
    assert(desc_names(d) =~= desc_names(e));
    if d.len() > 0 {
        let dd = d.drop_last();
        let ee = e.drop_last();
        assert forall|j: int| 0 <= j < dd.len() implies (#[trigger] dd[j]).name@ == ee[j].name@
            && dd[j].commit@ == ee[j].commit@ by {
            assert(dd[j] == d[j] && ee[j] == e[j]);
        }
        lemma_same_descs(dd, ee);
        assert(d[d.len() - 1] == d.last() && e[e.len() - 1] == e.last());
        assert(d.last().name@ == e.last().name@ && d.last().commit@ == e.last().commit@);
        assert forall|n: Seq<char>| commit_of(d, n) == commit_of(e, n) by {
            assert(commit_of(dd, n) == commit_of(ee, n));
        }
    }
    assert(desc_map(d) =~= desc_map(e));
}

} // verus!
