use vstd::prelude::*;

verus! {

/// What can go wrong when an airfoil is described.
#[derive(Debug, Clone, Copy, PartialEq, Eq, Structural)]
pub enum NacaError {
    /// A sample count below two, or a value that cannot be sampled.
    InvalidArgument,
    /// A designation that is not four decimal digits.
    InvalidDesignation,
}

} // verus!
