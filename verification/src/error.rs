//! The ways a lookup can fail, and their diagnostic text.

use vstd::prelude::*;
use vstd::string::StringExecFns;

verus! {

/// Why a lookup failed.
#[derive(Debug, PartialEq, Eq)]
pub enum LocateError {
    /// No candidate file exists from the working directory up to the
    /// filesystem root. Carries the requested basename, with its
    /// subdirectory when one was given.
    NotFound(String),
    /// The caller supplied an empty list of candidate extensions, so
    /// the search could never test a file.
    EmptyExtensionList,
    /// The host reported an operating-system failure: working-directory
    /// retrieval, or opening, reading or decoding the matched file.
    /// Carries the host's description of the failure.
    Io(String),
}

/// The mathematical model of a `LocateError`.
#[verifier::ext_equal]
pub enum ErrorModel {
    NotFound(Seq<char>),
    EmptyExtensionList,
    Io(Seq<char>),
}

impl View for LocateError {
    type V = ErrorModel;

    open spec fn view(&self) -> ErrorModel {
        match self {
            LocateError::NotFound(b) => ErrorModel::NotFound(b@),
            LocateError::EmptyExtensionList => ErrorModel::EmptyExtensionList,
            LocateError::Io(d) => ErrorModel::Io(d@),
        }
    }
}

/// The diagnostic text of each error. A `NotFound` message always
/// carries the requested basename.
pub open spec fn spec_message(m: ErrorModel) -> Seq<char> {
    match m {
        ErrorModel::NotFound(b) => "configuration file \""@ + b + "\" not found"@,
        ErrorModel::EmptyExtensionList => "no candidate extensions were supplied"@,
        ErrorModel::Io(d) => d,
    }
}

impl LocateError {
    /// Renders the error for display.
    pub fn message(&self) -> (r: String)
        ensures
            r@ == spec_message(self@),
    {
        match self {
            LocateError::NotFound(b) => {
                let mut s = "configuration file \"".to_owned();
                s.append(b.as_str());
                s.append("\" not found");
                s
            },
            LocateError::EmptyExtensionList => "no candidate extensions were supplied".to_owned(),
            LocateError::Io(d) => d.clone(),
        }
    }
}

} // verus!
