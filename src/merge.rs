use vstd::prelude::*;

use crate::patchname::{lemma_names_of_push, names_of, same_text, PatchName};

verus! {

/// What applying a patch's change onto the head gave: a tree, given by its id, or conflicts.
#[derive(Clone, Debug)]
pub enum MergeOutcome {
    Clean(String),
    Conflict,
}

/// An outcome that leaves the head's tree as it is: the patch's change is there already.
pub open spec fn is_no_op(o: MergeOutcome, head_tree: Seq<char>) -> bool {
    match o {
        MergeOutcome::Clean(t) => t@ == head_tree,
        MergeOutcome::Conflict => false,
    }
}

/// The candidates whose outcome is a no-op, in their order.
pub open spec fn merged_names(
    c: Seq<PatchName>,
    o: Seq<MergeOutcome>,
    head_tree: Seq<char>,
) -> Seq<Seq<char>>
    decreases c.len(),
{
    if c.len() == 0 || o.len() == 0 {
        seq![]
    } else {
        let r = merged_names(c.drop_last(), o.drop_last(), head_tree);
        if is_no_op(o.last(), head_tree) {
            r.push(c.last()@)
        } else {
            r
        }
    }
}

/// The candidates that are merged upstream already. `outcomes` holds, for each candidate in
/// turn, what applying its change onto the current head gave; a candidate is merged when
/// that left the head's tree, `head_tree`, unchanged.
pub fn check_merged(
    candidates: &Vec<PatchName>,
    outcomes: &Vec<MergeOutcome>,
    head_tree: &str,
) -> (r: Vec<PatchName>)
    requires
        outcomes@.len() == candidates@.len(),
    ensures
        names_of(r@) == merged_names(candidates@, outcomes@, head_tree@),
{
    let mut out: Vec<PatchName> = Vec::new();
    let mut i: usize = 0;
    while i < candidates.len()
        invariant
            outcomes@.len() == candidates@.len(),
            i <= candidates@.len(),
            names_of(out@) == merged_names(
                candidates@.take(i as int),
                outcomes@.take(i as int),
                head_tree@,
            ),
        decreases candidates.len() - i,
    {
        assert(candidates@.take(i + 1).drop_last() == candidates@.take(i as int));
        assert(outcomes@.take(i + 1).drop_last() == outcomes@.take(i as int));
        let same = match &outcomes[i] {
            MergeOutcome::Clean(t) => same_text(t.as_str(), head_tree),
            MergeOutcome::Conflict => false,
        };
        if same {
            let c = candidates[i].copy();
            proof {
                lemma_names_of_push(out@, c);
            }
            out.push(c);
        }
        i = i + 1;
    }
    assert(candidates@.take(candidates@.len() as int) == candidates@);
    assert(outcomes@.take(outcomes@.len() as int) == outcomes@);
    out
}

/// A candidate is reported as merged exactly when applying it left the head's tree as it
/// was: one that is a no-op against the head is reported, one that brings new content, or
/// conflicts, is not. Candidates are taken to be distinct, as the names of a stack are.
pub proof fn lemma_merged_iff_no_op(
    c: Seq<PatchName>,
    o: Seq<MergeOutcome>,
    head_tree: Seq<char>,
    i: int,
)
    requires
        o.len() == c.len(),
        names_of(c).no_duplicates(),
        0 <= i < c.len(),
    ensures
        merged_names(c, o, head_tree).contains(c[i]@) <==> is_no_op(o[i], head_tree),
    decreases c.len(),
{
    let m = c.len() - 1;
    let cd = c.drop_last();
    let od = o.drop_last();
    assert(names_of(cd) == names_of(c).drop_last()) by {
        assert(names_of(cd) =~= names_of(c).drop_last());
    }
    assert(names_of(c)[i] == c[i]@);
    assert(names_of(c)[m] == c[m]@);
    lemma_merged_within(cd, od, head_tree);
    assert(c.last() == c[m] && o.last() == o[m]);
    let r = merged_names(cd, od, head_tree);
    if i < m {
        assert(cd[i] == c[i] && od[i] == o[i]);
        lemma_merged_iff_no_op(cd, od, head_tree, i);
        assert(c[i]@ != c[m]@);
        assert(r.push(c[m]@).contains(c[i]@) == r.contains(c[i]@)) by {
            if r.push(c[m]@).contains(c[i]@) {
                let j = choose|j: int| 0 <= j < r.len() + 1 && r.push(c[m]@)[j] == c[i]@;
                if j < r.len() {
                    assert(r[j] == c[i]@);
                }
            }
            if r.contains(c[i]@) {
                let j = choose|j: int| 0 <= j < r.len() && r[j] == c[i]@;
                assert(r.push(c[m]@)[j] == c[i]@);
            }
        }
    } else {
        if r.contains(c[m]@) {
            let j = choose|j: int| 0 <= j < cd.len() && (#[trigger] cd[j])@ == c[m]@;
            assert(names_of(c)[j] == c[j]@);
            assert(cd[j] == c[j]);
            assert(false);
        }
        assert(r.push(c[m]@)[r.len() as int] == c[m]@);
    }
}

/// Every name reported is the name of a candidate.
proof fn lemma_merged_within(c: Seq<PatchName>, o: Seq<MergeOutcome>, head_tree: Seq<char>)
    ensures
        forall|x: Seq<char>|
            merged_names(c, o, head_tree).contains(x) ==> exists|j: int|
                0 <= j < c.len() && (#[trigger] c[j])@ == x,
    decreases c.len(),
{
    if c.len() > 0 && o.len() > 0 {
        let cd = c.drop_last();
        lemma_merged_within(cd, o.drop_last(), head_tree);
        assert forall|x: Seq<char>| merged_names(c, o, head_tree).contains(x) implies exists|
            j: int,
        | 0 <= j < c.len() && (#[trigger] c[j])@ == x by {
            let r = merged_names(cd, o.drop_last(), head_tree);
            if r.contains(x) {
                let j = choose|j: int| 0 <= j < cd.len() && (#[trigger] cd[j])@ == x;
                assert(c[j] == cd[j]);
            } else {
                assert(c[c.len() - 1] == c.last());
            }
        }
    }
}

} // verus!
