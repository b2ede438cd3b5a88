use vstd::prelude::*;

verus! {

/// What went wrong while reading a numeral.
#[derive(Debug, Clone, Copy, PartialEq, Eq, Structural)]
pub enum WenyanIntErrorKind {
    /// The text holds no digit at all.
    Empty,
    /// A character outside the vocabulary, or a zero digit where it may not stand.
    InvalidDigit,
    /// A second negative sign.
    RedundantSign,
}

/// The error returned when a numeral cannot be read.
#[derive(Debug, Clone, Copy, PartialEq, Eq, Structural)]
pub struct ParseWenyanIntError {
    kind: WenyanIntErrorKind,
}

/// The fixed description of each kind of error.
pub open spec fn description_of(kind: WenyanIntErrorKind) -> Seq<char> {
    match kind {
        WenyanIntErrorKind::Empty => "cannot parse integer from empty string"@,
        WenyanIntErrorKind::InvalidDigit => "invalid digit found in string"@,
        WenyanIntErrorKind::RedundantSign => "redundant sign found in string"@,
    }
}

impl ParseWenyanIntError {
    pub closed spec fn spec_kind(&self) -> WenyanIntErrorKind {
        self.kind
    }

    /// An error of the given kind.
    pub fn new(kind: WenyanIntErrorKind) -> (r: Self)
        ensures
            r.spec_kind() == kind,
    {
        ParseWenyanIntError { kind }
    }

    /// The kind of this error.
    #[verifier::when_used_as_spec(spec_kind)]
    pub fn kind(&self) -> (r: WenyanIntErrorKind)
        ensures
            r == self.spec_kind(),
    {
        self.kind
    }

    /// A human-readable description of this error.
    pub fn __description(&self) -> (r: &'static str)
        ensures
            r@ == description_of(self.spec_kind()),
    {
        match self.kind {
            WenyanIntErrorKind::Empty => "cannot parse integer from empty string",
            WenyanIntErrorKind::InvalidDigit => "invalid digit found in string",
            WenyanIntErrorKind::RedundantSign => "redundant sign found in string",
        }
    }
}

} // verus!
