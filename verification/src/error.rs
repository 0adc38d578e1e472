//! Errors of theme resolution.

use vstd::prelude::*;

verus! {

/// Why a theme failed to resolve.  Every failure is attributed to the name
/// involved: the dangling reference, or the entry that could not resolve.
#[derive(Clone, Debug)]
pub enum Error {
    /// A value could not be parsed into a concrete form (an unparseable
    /// color string).  The resolver itself never reports this: values
    /// reach it already parsed.  Loaders map their parse failures to it.
    MalformedValue { value: String },
    /// A field names a color, border or peer entry that its table does not
    /// hold.
    UnknownReference { name: String },
    /// A composite entry whose slots are all absent: there is no state to
    /// fill the entry from.
    NoDefinedState { entry: String },
    /// A composite entry that never resolves because the entries it
    /// inherits from never resolve (a reference cycle, or a chain that
    /// ends in one).
    UnresolvableCycle { entry: String },
}

impl Error {
    /// The name the failure is attributed to.
    pub fn name(&self) -> (r: &String)
        ensures
            r@ == self.spec_name(),
    {
        match self {
            Error::MalformedValue { value } => value,
            Error::UnknownReference { name } => name,
            Error::NoDefinedState { entry } => entry,
            Error::UnresolvableCycle { entry } => entry,
        }
    }

    /// The name the failure is attributed to.
    pub open spec fn spec_name(&self) -> Seq<char> {
        match self {
            Error::MalformedValue { value } => value@,
            Error::UnknownReference { name } => name@,
            Error::NoDefinedState { entry } => entry@,
            Error::UnresolvableCycle { entry } => entry@,
        }
    }

    /// A short label for the failure category, for reporting.
    pub fn kind(&self) -> (r: &'static str)
        ensures
            (self matches Error::MalformedValue { .. }) ==> r@ == "malformed value"@,
            (self matches Error::UnknownReference { .. }) ==> r@ == "unknown reference"@,
            (self matches Error::NoDefinedState { .. }) ==> r@ == "no defined state"@,
            (self matches Error::UnresolvableCycle { .. }) ==> r@ == "unresolvable cycle"@,
    {
        match self {
            Error::MalformedValue { .. } => "malformed value",
            Error::UnknownReference { .. } => "unknown reference",
            Error::NoDefinedState { .. } => "no defined state",
            Error::UnresolvableCycle { .. } => "unresolvable cycle",
        }
    }
}

} // verus!
