//! Why a source could not be loaded.

use vstd::prelude::*;

verus! {

/// `std::io::Error`, carried as it is.
#[verifier::external_type_specification]
#[verifier::external_body]
pub struct ExIoError(std::io::Error);

/// `std::string::FromUtf8Error`, carried as it is.
#[verifier::external_type_specification]
#[verifier::external_body]
pub struct ExFromUtf8Error(std::string::FromUtf8Error);

/// Why a source could not be loaded: it could not be read, or what was
/// read is no UTF-8.
#[derive(Debug)]
pub enum Failure {
    IOError(std::io::Error),
    Utf8Error(std::string::FromUtf8Error),
}

} // verus!
