use vstd::prelude::*;

use crate::error::Error;
use crate::patchname::{lemma_names_of_push, names_of, same_text, PatchName};
use crate::resolve::contains_name;
use crate::stack::{
    desc_names, lemma_commit_of_known, lookup_commit, PatchDesc, StackState,
};

verus! {

/// Whether no name stands twice in `v`.
fn names_distinct(v: &Vec<PatchName>) -> (r: bool)
    ensures
        r == names_of(v@).no_duplicates(),
{
    let ghost s = names_of(v@);
    let mut i: usize = 0;
    while i < v.len()
        invariant
            i <= v@.len(),
            s == names_of(v@),
            forall|x: int, y: int| 0 <= x < y < s.len() && x < i ==> s[x] != s[y],
        decreases v.len() - i,
    {
        let mut j: usize = i + 1;
        while j < v.len()
            invariant
                i < j <= v@.len(),
                s == names_of(v@),
                forall|x: int, y: int| 0 <= x < y < s.len() && x < i ==> s[x] != s[y],
                forall|y: int| i < y < j ==> s[i as int] != s[y],
            decreases v.len() - j,
        {
            assert(s[i as int] == v@[i as int]@ && s[j as int] == v@[j as int]@);
            if v[i].same(&v[j]) {
                return false;
            }
            j = j + 1;
        }
        i = i + 1;
    }
    true
}

/// The names of the descriptors, in their order.
fn desc_name_list(d: &Vec<PatchDesc>) -> (r: Vec<PatchName>)
    ensures
        names_of(r@) == desc_names(d@),
{
    let mut out: Vec<PatchName> = Vec::new();
    let mut i: usize = 0;
    while i < d.len()
        invariant
            i <= d@.len(),
            names_of(out@) == desc_names(d@.take(i as int)),
        decreases d.len() - i,
    {
        let c = d[i].name.copy();
        proof {
            lemma_names_of_push(out@, c);
            assert(desc_names(d@.take(i + 1)) =~= desc_names(d@.take(i as int)).push(c@));
        }
        out.push(c);
        i = i + 1;
    }
    assert(d@.take(d@.len() as int) == d@);
    out
}

/// The names of the three lists, one after the other.
fn all_name_list(s: &StackState) -> (r: Vec<PatchName>)
    ensures
        names_of(r@) == s@.all_names(),
{
    let mut out: Vec<PatchName> = Vec::new();
    append_names(&mut out, &s.applied);
    append_names(&mut out, &s.unapplied);
    append_names(&mut out, &s.hidden);
    out
}

fn append_names(out: &mut Vec<PatchName>, v: &Vec<PatchName>)
    ensures
        names_of(final(out)@) == names_of(old(out)@) + names_of(v@),
{
    let ghost start = names_of(out@);
    let mut i: usize = 0;
    while i < v.len()
        invariant
            i <= v@.len(),
            names_of(out@) == start + names_of(v@).take(i as int),
        decreases v.len() - i,
    {
        let c = v[i].copy();
        proof {
            lemma_names_of_push(out@, c);
            assert(start + names_of(v@).take(i + 1) =~= (start + names_of(v@).take(i as int)).push(
                c@,
            ));
        }
        out.push(c);
        i = i + 1;
    }
    assert(names_of(v@).take(v@.len() as int) =~= names_of(v@));
}

/// Whether every name of `v` is among `w`.
fn all_within(v: &Vec<PatchName>, w: &Vec<PatchName>) -> (r: bool)
    ensures
        r == forall|i: int| 0 <= i < v@.len() ==> names_of(w@).contains(#[trigger] names_of(v@)[i]),
{
    let mut i: usize = 0;
    while i < v.len()
        invariant
            i <= v@.len(),
            forall|k: int| 0 <= k < i ==> names_of(w@).contains(#[trigger] names_of(v@)[k]),
        decreases v.len() - i,
    {
        assert(names_of(v@)[i as int] == v@[i as int]@);
        if !contains_name(w, &v[i]) {
            return false;
        }
        i = i + 1;
    }
    true
}

impl StackState {
    /// Checks a stored stack record against the repository. A repository in the middle of a
    /// merge, rebase or cherry-pick (`repository_clean` false) is refused first; then a record
    /// whose lists do not part its patches, one descriptor each, is corrupt; then a branch
    /// head other than the commit of the top applied patch, or the base, is a mismatch.
    pub fn from_branch(record: StackState, repository_clean: bool) -> (r: Result<
        StackState,
        Error,
    >)
        ensures
            !repository_clean ==> r == Err::<StackState, Error>(Error::RepositoryStateConflict),
            repository_clean && !(desc_names(record.patches@).no_duplicates()
                && record@.all_names().no_duplicates() && record@.all_names().to_set()
                == record@.commits.dom()) ==> r == Err::<StackState, Error>(Error::CorruptState),
            repository_clean && desc_names(record.patches@).no_duplicates()
                && record@.all_names().no_duplicates() && record@.all_names().to_set()
                == record@.commits.dom() ==> {
                &&& record@.head != record@.expected_head() ==> r == Err::<StackState, Error>(
                    Error::HeadMismatch,
                )
                &&& record@.head == record@.expected_head() ==> r == Ok::<StackState, Error>(
                    record,
                ) && record.wf()
            },
    {
        if !repository_clean {
            return Err(Error::RepositoryStateConflict);
        }
        let descs = desc_name_list(&record.patches);
        let all = all_name_list(&record);
        let ghost d = record.patches@;
        let ghost an = record@.all_names();
        let ok = names_distinct(&descs) && names_distinct(&all) && all_within(&all, &descs)
            && all_within(&descs, &all);
        proof {
            let dn = desc_names(d);
            let dom = record@.commits.dom();
            let sets_equal = an.to_set() == dom;
            let within_ad = forall|i: int| 0 <= i < an.len() ==> dn.contains(#[trigger] an[i]);
            let within_da = forall|i: int| 0 <= i < dn.len() ==> an.contains(#[trigger] dn[i]);
            assert forall|n: Seq<char>| dom.contains(n) == dn.contains(n) by {
                lemma_commit_of_known(d, n);
            }
            if within_ad && within_da {
                assert forall|n: Seq<char>| an.to_set().contains(n) == dom.contains(n) by {
                    if an.contains(n) {
                        let i = choose|i: int| 0 <= i < an.len() && an[i] == n;
                        assert(dn.contains(an[i]));
                    }
                    if dn.contains(n) {
                        let i = choose|i: int| 0 <= i < dn.len() && dn[i] == n;
                        assert(an.contains(dn[i]));
                    }
                }
                assert(an.to_set() =~= dom);
            }
            if sets_equal {
                assert forall|i: int| 0 <= i < an.len() implies dn.contains(#[trigger] an[i]) by {
                    assert(an.to_set().contains(an[i]));
                }
                assert forall|i: int| 0 <= i < dn.len() implies an.contains(#[trigger] dn[i]) by {
                    assert(dom.contains(dn[i]));
                    assert(an.to_set().contains(dn[i]));
                }
            }
        }
        if !ok {
            return Err(Error::CorruptState);
        }
        let n = record.applied.len();
        let expected = if n == 0 {
            record.base.clone()
        } else {
            proof {
                let a = record@.all_names();
                assert(a[n - 1] == record.applied@[n - 1]@);
                assert(a.to_set().contains(a[n - 1]));
                lemma_commit_of_known(d, a[n - 1]);
            }
            lookup_commit(&record.patches, &record.applied[n - 1]).unwrap()
        };
        if !same_text(expected.as_str(), record.head.as_str()) {
            return Err(Error::HeadMismatch);
        }
        Ok(record)
    }
}

} // verus!
