//! What can go wrong between a record and the answer to its message.

use vstd::prelude::*;

verus! {

/// The error of the HTTP client, `reqwest::Error`, carried as it came.
#[verifier::external_type_specification]
#[verifier::external_body]
pub struct ExReqwestError(reqwest::Error);

/// The error of the XML reader, `minidom::Error`, carried as it came.
#[verifier::external_type_specification]
#[verifier::external_body]
pub struct ExMiniDomError(minidom::Error);

/// The failures between a record and the answer to its message.
#[derive(Debug)]
pub enum SoapError {
    /// The text sink refused a write.
    FmtError(std::fmt::Error),
    /// The request could not be sent, or its answer not be read.
    ReqwestError(reqwest::Error),
    /// The answer is no well-formed document.
    MiniDomError(minidom::Error),
    /// Anything else, in words.
    GenericError(String),
}

impl From<reqwest::Error> for SoapError {
    fn from(e: reqwest::Error) -> (r: Self) {
        SoapError::ReqwestError(e)
    }
}

impl vstd::std_specs::convert::FromSpecImpl<reqwest::Error> for SoapError {
    open spec fn obeys_from_spec() -> bool {
        true
    }

    open spec fn from_spec(e: reqwest::Error) -> Self {
        SoapError::ReqwestError(e)
    }
}

impl From<std::fmt::Error> for SoapError {
    fn from(e: std::fmt::Error) -> (r: Self) {
        SoapError::FmtError(e)
    }
}

impl vstd::std_specs::convert::FromSpecImpl<std::fmt::Error> for SoapError {
    open spec fn obeys_from_spec() -> bool {
        true
    }

    open spec fn from_spec(e: std::fmt::Error) -> Self {
        SoapError::FmtError(e)
    }
}

impl From<minidom::Error> for SoapError {
    fn from(e: minidom::Error) -> (r: Self) {
        SoapError::MiniDomError(e)
    }
}

impl vstd::std_specs::convert::FromSpecImpl<minidom::Error> for SoapError {
    open spec fn obeys_from_spec() -> bool {
        true
    }

    open spec fn from_spec(e: minidom::Error) -> Self {
        SoapError::MiniDomError(e)
    }
}

} // verus!
