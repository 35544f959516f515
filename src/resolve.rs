use vstd::prelude::*;
use vstd::string::StrSliceExecFns;

use crate::error::Error;
use crate::patchname::{names_of, PatchName};
use crate::stack::{desc_names, PatchDesc, StackState};

verus! {

/// The shortest input that is tried as a commit id prefix.
pub const MIN_PREFIX_LEN: usize = 4;

pub open spec fn is_hex_digit(c: char) -> bool {
    ('0' <= c && c <= '9') || ('a' <= c && c <= 'f') || ('A' <= c && c <= 'F')
}

/// Text that reads as an abbreviated object id: 1 to 40 hexadecimal digits.
pub open spec fn is_oid_text(s: Seq<char>) -> bool {
    &&& 0 < s.len() <= 40
    &&& forall|i: int| 0 <= i < s.len() ==> is_hex_digit(#[trigger] s[i])
}

/// `a` is `b` with an ASCII capital turned to lower case.
pub open spec fn lower_eq(a: char, b: char) -> bool {
    if 'A' <= b && b <= 'Z' {
        a as u32 == b as u32 + 32
    } else {
        a == b
    }
}

/// `s` begins with the lower-case form of `prefix`.
pub open spec fn starts_with_lower(s: Seq<char>, prefix: Seq<char>) -> bool {
    &&& prefix.len() <= s.len()
    &&& forall|i: int| 0 <= i < prefix.len() ==> lower_eq(#[trigger] s[i], prefix[i])
}

/// The names whose similarity flag is set, in descriptor order.
pub open spec fn similar_names(d: Seq<PatchDesc>, similar: Seq<bool>) -> Seq<Seq<char>>
    decreases d.len(),
{
    if d.len() == 0 || similar.len() == 0 {
        seq![]
    } else {
        let r = similar_names(d.drop_last(), similar.drop_last());
        if similar.last() {
            r.push(d.last().name@)
        } else {
            r
        }
    }
}

/// The names of the patches whose commit id begins with `prefix`, in any case.
pub open spec fn prefix_matches(d: Seq<PatchDesc>, prefix: Seq<char>) -> Seq<Seq<char>>
    decreases d.len(),
{
    if d.len() == 0 {
        seq![]
    } else {
        let r = prefix_matches(d.drop_last(), prefix);
        if starts_with_lower(d.last().commit@, prefix) {
            r.push(d.last().name@)
        } else {
            r
        }
    }
}

/// Whether `input` is tried as a commit id prefix.
pub open spec fn tries_prefix(input: Seq<char>) -> bool {
    input.len() >= MIN_PREFIX_LEN && is_oid_text(input)
}

/// Relies on git2::Oid::from_str, which fails exactly on an empty string, on one longer
/// than 40 characters and on one holding a character that is not a hexadecimal digit.
#[verifier::external_body]
fn parses_as_oid(s: &str) -> (r: bool)
    ensures
        r == is_oid_text(s@),
{
    git2::Oid::from_str(s).is_ok()
}

fn lower_eq_exec(a: char, b: char) -> (r: bool)
    ensures
        r == lower_eq(a, b),
{
    if 'A' <= b && b <= 'Z' {
        a as u32 == b as u32 + 32
    } else {
        a == b
    }
}

fn starts_with_lower_exec(s: &str, prefix: &str) -> (r: bool)
    ensures
        r == starts_with_lower(s@, prefix@),
{
    let n = prefix.unicode_len();
    if n > s.unicode_len() {
        return false;
    }
    let mut i: usize = 0;
    while i < n
        invariant
            n == prefix@.len(),
            n <= s@.len(),
            i <= n,
            forall|j: int| 0 <= j < i ==> lower_eq(#[trigger] s@[j], prefix@[j]),
        decreases n - i,
    {
        if !lower_eq_exec(s.get_char(i), prefix.get_char(i)) {
            return false;
        }
        i = i + 1;
    }
    true
}

/// Whether `name` is among `v`.
pub fn contains_name(v: &Vec<PatchName>, name: &PatchName) -> (r: bool)
    ensures
        r == names_of(v@).contains(name@),
{
    let mut i: usize = 0;
    while i < v.len()
        invariant
            i <= v@.len(),
            forall|j: int| 0 <= j < i ==> v@[j]@ != name@,
        decreases v.len() - i,
    {
        if v[i].same(name) {
            assert(names_of(v@)[i as int] == name@);
            return true;
        }
        i = i + 1;
    }
    assert forall|j: int| 0 <= j < names_of(v@).len() implies names_of(v@)[j] != name@ by {
        assert(v@[j]@ != name@);
    }
    false
}

/// Whether a descriptor of `name` is among `d`.
pub fn has_desc(d: &Vec<PatchDesc>, name: &PatchName) -> (r: bool)
    ensures
        r == desc_names(d@).contains(name@),
{
    let mut i: usize = 0;
    while i < d.len()
        invariant
            i <= d@.len(),
            forall|j: int| 0 <= j < i ==> d@[j].name@ != name@,
        decreases d.len() - i,
    {
        if d[i].name.same(name) {
            assert(desc_names(d@)[i as int] == name@);
            return true;
        }
        i = i + 1;
    }
    assert forall|j: int| 0 <= j < desc_names(d@).len() implies desc_names(d@)[j] != name@ by {
        assert(d@[j].name@ != name@);
    }
    false
}

/// The patches whose similarity flag is set.
fn collect_similar(d: &Vec<PatchDesc>, similar: &Vec<bool>) -> (r: Vec<PatchName>)
    requires
        similar@.len() == d@.len(),
    ensures
        names_of(r@) == similar_names(d@, similar@),
{
    let mut out: Vec<PatchName> = Vec::new();
    let mut i: usize = 0;
    while i < d.len()
        invariant
            similar@.len() == d@.len(),
            i <= d@.len(),
            names_of(out@) == similar_names(d@.take(i as int), similar@.take(i as int)),
        decreases d.len() - i,
    {
        assert(d@.take(i + 1).drop_last() == d@.take(i as int));
        assert(similar@.take(i + 1).drop_last() == similar@.take(i as int));
        if similar[i] {
            out.push(d[i].name.copy());
            assert(names_of(out@) == names_of(out@).drop_last().push(d@[i as int].name@));
        }
        i = i + 1;
    }
    assert(d@.take(d@.len() as int) == d@);
    assert(similar@.take(similar@.len() as int) == similar@);
    out
}

/// The patches whose commit id begins with `prefix`, in any case.
fn collect_prefix_matches(d: &Vec<PatchDesc>, prefix: &str) -> (r: Vec<PatchName>)
    ensures
        names_of(r@) == prefix_matches(d@, prefix@),
{
    let mut out: Vec<PatchName> = Vec::new();
    let mut i: usize = 0;
    while i < d.len()
        invariant
            i <= d@.len(),
            names_of(out@) == prefix_matches(d@.take(i as int), prefix@),
        decreases d.len() - i,
    {
        assert(d@.take(i + 1).drop_last() == d@.take(i as int));
        if starts_with_lower_exec(d[i].commit.as_str(), prefix) {
            out.push(d[i].name.copy());
            assert(names_of(out@) == names_of(out@).drop_last().push(d@[i as int].name@));
        }
        i = i + 1;
    }
    assert(d@.take(d@.len() as int) == d@);
    out
}

/// Resolves what a user typed to the name of a patch of `state`. `similar` holds, for each
/// descriptor of `state.patches` in turn, whether the name it describes is close to `input`
/// by the Jaro-Winkler measure, above 0.75.
///
/// A known name resolves to itself, unless it is hidden. Otherwise any close name makes the
/// input ambiguous, and all of them are reported. Otherwise an input of at least four
/// hexadecimal digits names the one patch whose commit id begins with it, if there is one.
pub fn resolve(input: &PatchName, state: &StackState, similar: &Vec<bool>) -> (r: Result<
    PatchName,
    Error,
>)
    requires
        similar@.len() == state.patches@.len(),
    ensures
        state.has(input@) ==> {
            if names_of(state.hidden@).contains(input@) {
                r == Err::<PatchName, Error>(Error::HiddenPatchAccess)
            } else {
                r is Ok && r->Ok_0@ == input@
            }
        },
        !state.has(input@) && similar_names(state.patches@, similar@).len() > 0 ==> {
            &&& r is Err
            &&& r->Err_0 is AmbiguousName
            &&& names_of(r->Err_0->AmbiguousName_0@) == similar_names(state.patches@, similar@)
        },
        !state.has(input@) && similar_names(state.patches@, similar@).len() == 0 && tries_prefix(
            input@,
        ) ==> {
            let m = prefix_matches(state.patches@, input@);
            &&& m.len() == 0 ==> r == Err::<PatchName, Error>(Error::NotFound)
            &&& m.len() == 1 ==> r is Ok && r->Ok_0@ == m[0]
            &&& m.len() > 1 ==> r is Err && r->Err_0 is AmbiguousCommitPrefix && names_of(
                r->Err_0->AmbiguousCommitPrefix_0@,
            ) == m
        },
        !state.has(input@) && similar_names(state.patches@, similar@).len() == 0 && !tries_prefix(
            input@,
        ) ==> r == Err::<PatchName, Error>(Error::NotFound),
        forall|other: Seq<char>|
            state.has(input@) && #[trigger] state.has(other) && other != input@ ==> !(r is Ok && r->Ok_0@
                == other),
{
    if has_desc(&state.patches, input) {
        if contains_name(&state.hidden, input) {
            return Err(Error::HiddenPatchAccess);
        }
        return Ok(input.copy());
    }
    let close = collect_similar(&state.patches, similar);
    if close.len() > 0 {
        return Err(Error::AmbiguousName(close));
    }
    if input.len() >= MIN_PREFIX_LEN && parses_as_oid(input.as_str()) {
        let mut found = collect_prefix_matches(&state.patches, input.as_str());
        if found.len() == 0 {
            Err(Error::NotFound)
        } else if found.len() == 1 {
            let only = found.pop().unwrap();
            Ok(only)
        } else {
            Err(Error::AmbiguousCommitPrefix(found))
        }
    } else {
        Err(Error::NotFound)
    }
}

} // verus!
