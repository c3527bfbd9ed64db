//! Error taxonomy of the library.

use vstd::prelude::*;
use vstd::string::StringSliceAdditionalSpecFns;

verus! {

/// What can go wrong while computing or attaching a signature.
#[derive(Clone, Copy, PartialEq, Eq, Structural, Debug)]
pub enum Error {
    /// Key material absent, unreadable, or mismatched with the requested
    /// algorithm family.
    Key,
    /// A header value is not valid text, or a computed value cannot be
    /// represented.
    Encoding,
    /// The cryptographic primitive rejected the input or the key at sign
    /// time.
    Signing,
    /// A message view is incomplete or malformed before a signing string can
    /// be built.
    Conversion,
}

impl Error {
    /// A short human-readable description of the failure.
    pub fn message(&self) -> (r: &'static str)
        ensures
            *self == Error::Key ==> r@ == "key material unusable or of the wrong family"@,
            *self == Error::Encoding ==> r@ == "value cannot be represented as text"@,
            *self == Error::Signing ==> r@ == "signature primitive rejected the input"@,
            *self == Error::Conversion ==> r@ == "message view is incomplete"@,
    {
        match self {
            Error::Key => "key material unusable or of the wrong family",
            Error::Encoding => "value cannot be represented as text",
            Error::Signing => "signature primitive rejected the input",
            Error::Conversion => "message view is incomplete",
        }
    }
}

} // verus!
