use vstd::prelude::*;

verus! {

/// The kinds of error the layout can raise.
#[derive(Debug, Clone, Copy, PartialEq, Eq, Structural)]
pub enum GallError {
    AngleUndefined,
    NegativeDistanceErr,
    TooThick,
    NotThickEnough,
    DistTooShort,
    DistTooLong,
    RadiusTooShort,
    RadiusTooLong,
    VowelRadiusTooShort,
    VowelRadiusTooLong,
    InvalidVowelDist,
    DoNotMutTainer,
    NoStepSpace,
    NoStemInTainer,
    LetterNotTouchingSkel,
    TainerNotInit,
}

/// An error of the layout, carrying its kind.
#[derive(Debug, Clone, Copy)]
pub struct Error {
    pub error_type: GallError,
}

impl Error {
    /// An error of the kind `err`.
    pub fn new(err: GallError) -> (e: Error)
        ensures
            e.error_type == err,
    {
        Error { error_type: err }
    }
}

/// The message that describes an error of kind `err`.
pub open spec fn error_message(err: GallError) -> Seq<char> {
    match err {
        GallError::AngleUndefined => "Angle is undefined."@,
        GallError::NegativeDistanceErr => "Distance is negative"@,
        GallError::TooThick => "Too much of dat THICCC"@,
        GallError::NotThickEnough => "Not enough THICCC"@,
        GallError::DistTooShort => "Stem distance is too short"@,
        GallError::DistTooLong => "Stem distance is too long"@,
        GallError::RadiusTooShort => "Stem radius is too short"@,
        GallError::RadiusTooLong => "Stem radius is too long"@,
        GallError::VowelRadiusTooShort => "Vowel radius is too short"@,
        GallError::VowelRadiusTooLong => "Vowel radius is too long"@,
        GallError::InvalidVowelDist => "Vowel radius is invalid"@,
        GallError::DoNotMutTainer => "Do Not Mut Tainer"@,
        GallError::NoStepSpace => "Stepping further will cross 6 o'clock"@,
        GallError::NoStemInTainer => "Tainer stemtype is None"@,
        GallError::LetterNotTouchingSkel => "Letter is not touching skeleton"@,
        GallError::TainerNotInit => "Tainer has not been initialised yet"@,
    }
}

impl Error {
    /// The message that describes this error.
    pub fn message(&self) -> (m: &'static str)
        ensures
            m@ == error_message(self.error_type),
    {
        match self.error_type {
            GallError::AngleUndefined => "Angle is undefined.",
            GallError::NegativeDistanceErr => "Distance is negative",
            GallError::TooThick => "Too much of dat THICCC",
            GallError::NotThickEnough => "Not enough THICCC",
            GallError::DistTooShort => "Stem distance is too short",
            GallError::DistTooLong => "Stem distance is too long",
            GallError::RadiusTooShort => "Stem radius is too short",
            GallError::RadiusTooLong => "Stem radius is too long",
            GallError::VowelRadiusTooShort => "Vowel radius is too short",
            GallError::VowelRadiusTooLong => "Vowel radius is too long",
            GallError::InvalidVowelDist => "Vowel radius is invalid",
            GallError::DoNotMutTainer => "Do Not Mut Tainer",
            GallError::NoStepSpace => "Stepping further will cross 6 o'clock",
            GallError::NoStemInTainer => "Tainer stemtype is None",
            GallError::LetterNotTouchingSkel => "Letter is not touching skeleton",
            GallError::TainerNotInit => "Tainer has not been initialised yet",
        }
    }
}

} // verus!
