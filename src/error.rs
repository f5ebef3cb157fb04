//! The ways a run can fail.
use vstd::prelude::*;

verus! {

/// Declares `std::io::Error`, carried by `MyError::IOError`.
#[verifier::external_type_specification]
#[verifier::external_body]
pub struct ExIoError(std::io::Error);

/// Declares `serde_json::Error`, returned by a failed `serde_json` parse.
#[verifier::external_type_specification]
#[verifier::external_body]
pub struct ExSerdeJsonError(serde_json::Error);

/// Declares `json::Error`, returned by a failed `json` parse.
#[verifier::external_type_specification]
#[verifier::external_body]
pub struct ExJsonError(json::Error);

/// Why a run stopped. Every one of these ends the run.
#[derive(Debug)]
pub enum MyError {
    /// The input could not be read.
    IOError(std::io::Error),
    /// A line is not valid JSON to the `serde_json` backend.
    SerdeJsonError(serde_json::Error),
    /// A line is not valid JSON to the `json` backend.
    JsonError(json::Error),
    /// Tallying a line would push the count of occurrences past `usize::MAX`.
    CountOverflow,
}

impl From<std::io::Error> for MyError {
    fn from(err: std::io::Error) -> (r: MyError)
        ensures
            r == MyError::IOError(err),
    {
        MyError::IOError(err)
    }
}

impl vstd::std_specs::convert::FromSpecImpl<std::io::Error> for MyError {
    open spec fn obeys_from_spec() -> bool {
        true
    }

    open spec fn from_spec(v: std::io::Error) -> MyError {
        MyError::IOError(v)
    }
}

impl From<serde_json::Error> for MyError {
    fn from(err: serde_json::Error) -> (r: MyError)
        ensures
            r == MyError::SerdeJsonError(err),
    {
        MyError::SerdeJsonError(err)
    }
}

impl vstd::std_specs::convert::FromSpecImpl<serde_json::Error> for MyError {
    open spec fn obeys_from_spec() -> bool {
        true
    }

    open spec fn from_spec(v: serde_json::Error) -> MyError {
        MyError::SerdeJsonError(v)
    }
}

impl From<json::Error> for MyError {
    fn from(err: json::Error) -> (r: MyError)
        ensures
            r == MyError::JsonError(err),
    {
        MyError::JsonError(err)
    }
}

impl vstd::std_specs::convert::FromSpecImpl<json::Error> for MyError {
    open spec fn obeys_from_spec() -> bool {
        true
    }

    open spec fn from_spec(v: json::Error) -> MyError {
        MyError::JsonError(v)
    }
}

} // verus!
