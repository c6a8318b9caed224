use vstd::prelude::*;

verus! {

/// Argument that only this crate can name: a method that takes it cannot be
/// overridden or called from outside.
pub struct Seal;

} // verus!
