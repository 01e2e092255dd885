use vstd::prelude::*;

verus! {

/// Global switches and colours of the renderer.
pub struct Config {}

impl Config {
    /// Whether dash nodes are drawn.
    pub const NODE_VISIBILITY: bool = true;
    /// Whether a background canvas is drawn.
    pub const ENABLE_CANVAS: bool = true;
    /// Whether consecutive letters of one stem type stack in one container.
    pub const STACK: bool = true;
    /// Default half-thickness of a line joining two dash nodes.
    pub const DEF_PAIR_THICK: i16 = 4;

    /// The colour of debugging marks.
    pub fn DEBUG_COLOUR() -> (c: &'static str)
        ensures
            c@ == "purple"@,
    {
        "purple"
    }

    /// The colour of the background canvas.
    pub fn CANVAS_COLOUR() -> (c: &'static str)
        ensures
            c@ == "yellow"@,
    {
        "yellow"
    }

    /// The colour of the inside of the sentence circle.
    pub fn SENT_COLOUR() -> (c: &'static str)
        ensures
            c@ == "orange"@,
    {
        "orange"
    }

    /// The colour of the inside of a word.
    pub fn WRD_COLOUR() -> (c: &'static str)
        ensures
            c@ == "green"@,
    {
        "green"
    }

    /// The colour of dots.
    pub fn DOT_COLOUR() -> (c: &'static str)
        ensures
            c@ == "blue"@,
    {
        "blue"
    }

    /// The colour of J and Z stems.
    pub fn JZ_COLOUR() -> (c: &'static str)
        ensures
            c@ == "black"@,
    {
        "black"
    }

    /// The colour of vowels.
    pub fn VOW_COLOUR() -> (c: &'static str)
        ensures
            c@ == "red"@,
    {
        "red"
    }

    /// The colour of word skeletons and lines.
    pub fn SKEL_COLOUR() -> (c: &'static str)
        ensures
            c@ == "black"@,
    {
        "black"
    }

    /// The colour of the sentence circle.
    pub fn SENT_SKEL_COLOUR() -> (c: &'static str)
        ensures
            c@ == "black"@,
    {
        "black"
    }
}

} // verus!
