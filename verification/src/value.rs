use vstd::prelude::*;

verus! {

/// The type of a value of the code generator: a scalar, or a struct or a
/// function by its index.
#[derive(Clone, Copy, PartialEq, Eq, Structural, Debug, Hash)]
pub enum Type {
    Nil,
    Bool,
    Int,
    Float,
    String,
    Struct(u32),
    Func(u32),
}

} // verus!
