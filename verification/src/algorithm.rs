//! Signature algorithm identifiers and their wire names.

use vstd::prelude::*;
use vstd::string::StringSliceAdditionalSpecFns;

verus! {

/// The digest size of the hash underlying a signature algorithm.
#[derive(Clone, Copy, PartialEq, Eq, Structural, Debug)]
pub enum ShaSize {
    TwoFiftySix,
    ThreeEightyFour,
    FiveTwelve,
}

/// A signature algorithm: a key family combined with a digest size. Its wire
/// name is the lower-case dash-joined form, e.g. `rsa-sha256`.
#[derive(Clone, Copy, PartialEq, Eq, Structural, Debug)]
pub enum SignatureAlgorithm {
    RSA(ShaSize),
    HMAC(ShaSize),
}

/// The family of key material an algorithm needs.
#[derive(Clone, Copy, PartialEq, Eq, Structural, Debug)]
pub enum KeyFamily {
    Rsa,
    Hmac,
}

impl SignatureAlgorithm {
    /// The algorithm's wire name, as bytes.
    pub open spec fn spec_name(&self) -> Seq<u8> {
        match self {
            SignatureAlgorithm::RSA(ShaSize::TwoFiftySix) => "rsa-sha256".spec_bytes(),
            SignatureAlgorithm::RSA(ShaSize::ThreeEightyFour) => "rsa-sha384".spec_bytes(),
            SignatureAlgorithm::RSA(ShaSize::FiveTwelve) => "rsa-sha512".spec_bytes(),
            SignatureAlgorithm::HMAC(ShaSize::TwoFiftySix) => "hmac-sha256".spec_bytes(),
            SignatureAlgorithm::HMAC(ShaSize::ThreeEightyFour) => "hmac-sha384".spec_bytes(),
            SignatureAlgorithm::HMAC(ShaSize::FiveTwelve) => "hmac-sha512".spec_bytes(),
        }
    }

    /// The key family the algorithm needs.
    pub open spec fn spec_family(&self) -> KeyFamily {
        match self {
            SignatureAlgorithm::RSA(_) => KeyFamily::Rsa,
            SignatureAlgorithm::HMAC(_) => KeyFamily::Hmac,
        }
    }

    /// The algorithm's wire name: lower-case family, dash, lower-case digest
    /// name.
    pub fn name(&self) -> (r: &'static str)
        ensures
            r.spec_bytes() == self.spec_name(),
    {
        match self {
            SignatureAlgorithm::RSA(ShaSize::TwoFiftySix) => "rsa-sha256",
            SignatureAlgorithm::RSA(ShaSize::ThreeEightyFour) => "rsa-sha384",
            SignatureAlgorithm::RSA(ShaSize::FiveTwelve) => "rsa-sha512",
            SignatureAlgorithm::HMAC(ShaSize::TwoFiftySix) => "hmac-sha256",
            SignatureAlgorithm::HMAC(ShaSize::ThreeEightyFour) => "hmac-sha384",
            SignatureAlgorithm::HMAC(ShaSize::FiveTwelve) => "hmac-sha512",
        }
    }

    /// The key family the algorithm needs.
    pub fn family(&self) -> (r: KeyFamily)
        ensures
            r == self.spec_family(),
    {
        match self {
            SignatureAlgorithm::RSA(_) => KeyFamily::Rsa,
            SignatureAlgorithm::HMAC(_) => KeyFamily::Hmac,
        }
    }
}

} // verus!
