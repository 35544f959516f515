use vstd::prelude::*;

use crate::command::CommandKind;
use crate::error::Error;
use crate::indexset::name_set;
use crate::patchname::{lemma_names_of_push, names_of, PatchName};
use crate::resolve::contains_name;
use crate::transaction::{index_in, lemma_first_in, pops_of, position_of, Intent, StackTransaction};

verus! {

/// The name of the command and what it is.
pub fn get_command() -> (r: (&'static str, CommandKind))
    ensures
        r.0@ == "goto"@,
        r.1 == CommandKind::Goto,
{
    proof {
        reveal_strlit("goto");
    }
    ("goto", CommandKind::Goto)
}

/// `intents` holds after `prefix` a push of each name of `pushed`, in order, marked as merged
/// when `merged` holds its name.
pub open spec fn pushes_of(
    intents: Seq<Intent>,
    prefix: int,
    pushed: Seq<Seq<char>>,
    merged: Seq<Seq<char>>,
) -> bool {
    &&& intents.len() == prefix + pushed.len()
    &&& forall|k: int|
        0 <= k < pushed.len() ==> {
            &&& #[trigger] intents[prefix + k] is Push
            &&& intents[prefix + k]->Push_name@ == pushed[k]
            &&& intents[prefix + k]->Push_merged == merged.contains(pushed[k])
        }
}

/// The patches that going to `target` pushes: where it is not applied, the unapplied ones up
/// to and including it.
pub fn patches_to_push(trans: &StackTransaction, target: &PatchName) -> (r: Vec<PatchName>)
    ensures
        ({
            let a = names_of(trans.applied@);
            let u = names_of(trans.unapplied@);
            let q = index_in(u, target@);
            &&& index_in(a, target@) >= a.len() && q < u.len() ==> names_of(r@) == u.take(q + 1)
            &&& index_in(a, target@) < a.len() || q >= u.len() ==> r@.len() == 0
        }),
{
    if position_of(&trans.applied, target) < trans.applied.len() {
        return Vec::new();
    }
    let q = position_of(&trans.unapplied, target);
    if q >= trans.unapplied.len() {
        return Vec::new();
    }
    copy_range(&trans.unapplied, 0, q + 1)
}

/// Copies the names at positions `from` to `to`, `to` excluded.
fn copy_range(v: &Vec<PatchName>, from: usize, to: usize) -> (r: Vec<PatchName>)
    requires
        from <= to <= v@.len(),
    ensures
        names_of(r@) == names_of(v@).subrange(from as int, to as int),
{
    let mut out: Vec<PatchName> = Vec::new();
    let mut i: usize = from;
    while i < to
        invariant
            from <= i <= to <= v@.len(),
            names_of(out@) == names_of(v@).subrange(from as int, i as int),
        decreases to - i,
    {
        let c = v[i].copy();
        proof {
            lemma_names_of_push(out@, c);
            assert(names_of(v@).subrange(from as int, i + 1) =~= names_of(v@).subrange(
                from as int,
                i as int,
            ).push(c@));
        }
        out.push(c);
        i = i + 1;
    }
    out
}

/// Records the steps that go to `target`: where it is applied, pops of the patches above it;
/// where it is unapplied, pushes of the unapplied patches up to and including it, each marked
/// as merged when `merged` names it. A target in neither list is not found.
pub fn goto_patch(trans: &mut StackTransaction, target: &PatchName, merged: &Vec<PatchName>) -> (r:
    Result<(), Error>)
    requires
        names_of(old(trans).applied@).no_duplicates(),
    ensures
        ({
            let a = names_of(old(trans).applied@);
            let u = names_of(old(trans).unapplied@);
            let n0 = old(trans).intents@.len() as int;
            let p = index_in(a, target@);
            let q = index_in(u, target@);
            &&& p < a.len() ==> {
                &&& r is Ok
                &&& names_of(final(trans).applied@) == a.take(p + 1)
                &&& names_of(final(trans).unapplied@) == a.skip(p + 1) + u
                &&& final(trans).intents@.take(n0) == old(trans).intents@
                &&& pops_of(final(trans).intents@, n0, a.skip(p + 1))
            }
            &&& p >= a.len() && q < u.len() ==> {
                &&& r is Ok
                &&& names_of(final(trans).applied@) == a + u.take(q + 1)
                &&& names_of(final(trans).unapplied@) == u.skip(q + 1)
                &&& final(trans).intents@.take(n0) == old(trans).intents@
                &&& pushes_of(final(trans).intents@, n0, u.take(q + 1), names_of(merged@))
            }
            &&& p >= a.len() && q >= u.len() ==> r == Err::<(), Error>(Error::NotFound)
                && *final(trans) == *old(trans)
        }),
{
    let ghost a = names_of(trans.applied@);
    let ghost u = names_of(trans.unapplied@);
    let ghost n0 = trans.intents@.len() as int;
    let p = position_of(&trans.applied, target);
    if p < trans.applied.len() {
        let above = copy_range(&trans.applied, p + 1, trans.applied.len());
        let to_pop = name_set(&above);
        proof {
            let s = names_of(above@).to_set();
            assert(names_of(above@) =~= a.skip(p + 1));
            assert forall|j: int| 0 <= j < p + 1 implies !s.contains(#[trigger] a[j]) by {
                if s.contains(a[j]) {
                    let k = choose|k: int| 0 <= k < names_of(above@).len() && names_of(above@)[k]
                        == a[j];
                    assert(a[p + 1 + k] == a[j]);
                }
            }
            if p + 1 < a.len() {
                assert(names_of(above@)[0] == a[p + 1]);
            }
            lemma_first_in(a, s, p + 1);
        }
        trans.pop_patches(&to_pop);
        return Ok(());
    }
    let q = position_of(&trans.unapplied, target);
    if q >= trans.unapplied.len() {
        return Err(Error::NotFound);
    }
    let to_apply = copy_range(&trans.unapplied, 0, q + 1);
    assert(names_of(to_apply@) =~= u.take(q + 1));
    let mut i: usize = 0;
    while i < to_apply.len()
        invariant
            i <= to_apply@.len(),
            to_apply@.len() == q + 1 <= u.len(),
            names_of(to_apply@) == u.take(q + 1),
            names_of(trans.applied@) == a + u.take(i as int),
            names_of(trans.unapplied@) == u.skip(i as int),
            trans.intents@.take(n0) == old(trans).intents@,
            pushes_of(trans.intents@, n0, u.take(i as int), names_of(merged@)),
            n0 == old(trans).intents@.len(),
            a == names_of(old(trans).applied@),
            u == names_of(old(trans).unapplied@),
        decreases to_apply.len() - i,
    {
        let name = &to_apply[i];
        assert(name@ == names_of(to_apply@)[i as int]);
        let ghost cur = names_of(trans.unapplied@);
        let ghost before = trans.intents@;
        proof {
            assert(cur[0] == u[i as int]);
            lemma_first_in(cur, set![name@], 0);
        }
        let already = contains_name(merged, name);
        let pushed = trans.push_patch(name, already);
        proof {
            assert(u.skip(i as int).remove(0) =~= u.skip(i + 1));
            assert(a + u.take(i as int) + seq![u[i as int]] =~= a + u.take(i + 1));
            assert(a + u.take(i as int).push(name@) =~= a + u.take(i + 1));
            assert(trans.intents@.take(n0) =~= before.take(n0));
            let pushed_names = u.take(i + 1);
            assert forall|k: int| 0 <= k < pushed_names.len() implies {
                &&& #[trigger] trans.intents@[n0 + k] is Push
                &&& trans.intents@[n0 + k]->Push_name@ == pushed_names[k]
                &&& trans.intents@[n0 + k]->Push_merged == names_of(merged@).contains(
                    pushed_names[k],
                )
            } by {
                if k < i {
                    assert(trans.intents@[n0 + k] == before[n0 + k]);
                    assert(u.take(i as int)[k] == pushed_names[k]);
                }
            }
        }
        i = i + 1;
    }
    Ok(())
}

} // verus!
