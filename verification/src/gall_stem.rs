use vstd::prelude::*;

verus! {

/// The four families of consonant stems.
#[derive(Debug, Clone, Copy, PartialEq, Eq, Structural)]
pub enum StemType {
    J,
    B,
    S,
    Z,
}

} // verus!
