//! The error that parsing reports.
use vstd::prelude::*;
use crate::text::{chars_of, joined};

verus! {

#[verifier::external_type_specification]
#[verifier::external_body]
pub struct ExIoError(std::io::Error);

/// Why an address could not be labelled: the tagging model failed, for the reason carried.
#[derive(Debug)]
pub enum Error {
    CrfsError(std::io::Error),
}

impl From<std::io::Error> for Error {
    fn from(other: std::io::Error) -> (r: Error) {
        Error::CrfsError(other)
    }
}

impl vstd::std_specs::convert::FromSpecImpl<std::io::Error> for Error {
    open spec fn obeys_from_spec() -> bool {
        true
    }

    open spec fn from_spec(v: std::io::Error) -> Error {
        Error::CrfsError(v)
    }
}

impl Error {
    /// A description of the error for people to read.
    pub fn message(&self) -> (r: String)
        ensures
            self matches Error::CrfsError(e) ==> exists|s: String|
                vstd::string::to_string_from_display_ensures(e, s) && r@ == "USAddress Error: "@
                    + s@,
    {
        match self {
            Error::CrfsError(e) => {
                let s = e.to_string();
                let r = joined("USAddress Error: ", &chars_of(s.as_str()));
                assert(vstd::string::to_string_from_display_ensures(e, s) && r@ == "USAddress Error: "@
                    + s@);
                r
            },
        }
    }
}

} // verus!
