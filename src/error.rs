use vstd::prelude::*;

verus! {

/// Describes an error during the parsing of a timestamp.
#[derive(Debug)]
pub enum Error {
    /// The timestamp is incorrectly formatted.
    Format(String),
    /// The timestamp contains a component that cannot be parsed into a number, or the number overflowed.
    Number(String),
    /// The timestamp contains a component that cannot be parsed into a time unit.
    TimeUnit(String),
    /// The timestamp is invalid in the given timezone.
    Never,
}

/// What a failed parse is reported as: the kind of error, and for an unknown
/// time unit its spelling.
pub enum Fault {
    Format,
    Number,
    TimeUnit(Seq<char>),
    Never,
}

impl Error {
    pub open spec fn fault(&self) -> Fault {
        match self {
            Error::Format(_) => Fault::Format,
            Error::Number(_) => Fault::Number,
            Error::TimeUnit(unit) => Fault::TimeUnit(unit@),
            Error::Never => Fault::Never,
        }
    }

    /// A description of the error for people to read.
    pub fn message(&self) -> (r: String)
        ensures
            self matches Error::Format(m) ==> r@ == "invalid timestamp format: "@ + m@,
            self matches Error::Number(m) ==> r@ == "invalid timestamp number: "@ + m@,
            self matches Error::TimeUnit(u) ==> r@ == "invalid time unit: "@ + u@,
            self is Never ==> r@ == "invalid timestamp in the given timezone"@,
    {
        match self {
            Error::Format(m) => String::from_str("invalid timestamp format: ").concat(m.as_str()),
            Error::Number(m) => String::from_str("invalid timestamp number: ").concat(m.as_str()),
            Error::TimeUnit(u) => String::from_str("invalid time unit: ").concat(u.as_str()),
            Error::Never => String::from_str("invalid timestamp in the given timezone"),
        }
    }
}

/// The error `r` stands for `f`.
pub open spec fn reports<T>(r: Result<T, Error>, f: Fault) -> bool {
    r matches Err(e) && e.fault() == f
}

} // verus!
