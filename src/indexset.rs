use indexmap::IndexSet;
use vstd::prelude::*;

use crate::patchname::{names_of, PatchName};

verus! {

#[verifier::external_type_specification]
#[verifier::external_body]
#[verifier::reject_recursive_types(T)]
#[verifier::reject_recursive_types(S)]
pub struct ExIndexSet<T, S>(IndexSet<T, S>);

/// The strings that an index set of strings holds.
pub uninterp spec fn set_names(s: IndexSet<String>) -> Set<Seq<char>>;

/// Relies on `IndexSet`'s `FromIterator`: every collected string is in the set, and no other.
#[verifier::external_body]
pub(crate) fn name_set(names: &Vec<PatchName>) -> (r: IndexSet<String>)
    ensures
        set_names(r) == names_of(names@).to_set(),
{
    names.iter().map(|n| n.to_string()).collect()
}

/// Relies on `IndexSet::contains`: whether an equal string is in the set.
#[verifier::external_body]
pub(crate) fn set_has(s: &IndexSet<String>, name: &PatchName) -> (r: bool)
    ensures
        r == set_names(*s).contains(name@),
{
    s.contains(name.as_str())
}

} // verus!
