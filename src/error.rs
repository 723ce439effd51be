//! Errors of ingestion.
use vstd::prelude::*;
use gray_matter::Error as MatterError;

verus! {

/// Why building the graph failed.
#[derive(Debug)]
pub enum Error {
    /// A document's identifier could not be derived, or its front matter was malformed.
    Parse,
    /// The document source could not be read.
    Io(String),
    /// The graph could not be assembled.
    Wiki,
    /// Any other failure, described in words.
    Other(String),
}

impl From<MatterError> for Error {
    fn from(_err: MatterError) -> (r: Error)
        ensures
            r == Error::Parse,
    {
        Error::Parse
    }
}

impl vstd::std_specs::convert::FromSpecImpl<MatterError> for Error {
    open spec fn obeys_from_spec() -> bool {
        true
    }

    open spec fn from_spec(_err: MatterError) -> Error {
        Error::Parse
    }
}

} // verus!
