use vstd::prelude::*;

use crate::command::CommandKind;
use crate::error::Error;
use crate::patchname::PatchName;
use crate::resolve::has_desc;
use crate::stack::StackState;

verus! {

/// The name of the command and what it is.
pub fn get_command() -> (r: (&'static str, CommandKind))
    ensures
        r.0@ == "new"@,
        r.1 == CommandKind::New,
{
    proof {
        reveal_strlit("new");
    }
    ("new", CommandKind::New)
}

/// Checks the name asked for a new patch: none leaves it to be made from the message; a name
/// that the stack has already is refused.
pub fn check_new_name(stack: &StackState, name: Option<PatchName>) -> (r: Result<
    Option<PatchName>,
    Error,
>)
    ensures
        name is None ==> r is Ok && r->Ok_0 is None,
        name is Some && stack.has(name->Some_0@) ==> r == Err::<Option<PatchName>, Error>(
            Error::PatchExists,
        ),
        name is Some && !stack.has(name->Some_0@) ==> r is Ok && r->Ok_0 is Some
            && r->Ok_0->Some_0@ == name->Some_0@,
{
    match name {
        None => Ok(None),
        Some(n) => {
            if has_desc(&stack.patches, &n) {
                Err(Error::PatchExists)
            } else {
                Ok(Some(n))
            }
        },
    }
}

} // verus!
