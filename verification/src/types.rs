use vstd::prelude::*;

verus! {

/// The type of value that an expression leaves on the stack.
#[derive(Debug, Clone, Copy, PartialEq, Eq, Structural)]
pub enum Type {
    Number,
    Str,
}

} // verus!
