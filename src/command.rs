use vstd::prelude::*;

verus! {

/// The commands that act on a stack.
#[derive(Clone, Copy, Debug, PartialEq, Eq, Structural)]
pub enum CommandKind {
    /// Go to a patch, pushing or popping as needed.
    Goto,
    /// Create a new patch on top of the stack.
    New,
}

} // verus!
