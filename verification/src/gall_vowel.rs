use vstd::prelude::*;

verus! {

/// The vowel marks; `O1` sits on a letter, `O2` on a word.
#[derive(Debug, Clone, Copy, PartialEq, Eq, Structural)]
pub enum VowelType {
    A,
    E,
    I,
    O1,
    O2,
    U,
}

} // verus!
