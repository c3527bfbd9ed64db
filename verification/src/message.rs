//! The abstract message view and the end-to-end signing capability.
//!
//! A host integration maps its request type to a [`MessageView`] (method,
//! path, optional query, raw header list in wire order) and receives back
//! either the intermediate signature parameters or a finished header value.

use vstd::prelude::*;
use vstd::string::StringSliceAdditionalSpecFns;
use vstd::string::StrSliceExecFns;
use vstd::utf8::encode_utf8;

use crate::algorithm::SignatureAlgorithm;
use crate::encode::{base64_of, encode_params, params_model, scheme_wrapped_params};
use crate::engine::{sign, spec_signature, Key};
use crate::error::Error;
use crate::headers::{raw_model, spec_fold, EntryModel, HeaderSet};
use crate::signing::{
    build, names_of, opt_bytes, signing_bytes, spec_merge, target_line, SigningString,
};

verus! {

/// The capability a host message type must expose: its method, path,
/// optional query, and the raw header list with duplicates and case kept in
/// wire order.
pub struct MessageView {
    pub method: String,
    pub path: String,
    pub query: Option<String>,
    pub headers: Vec<(String, String)>,
}

/// Signature parameters ready for encoding: key id, algorithm, the ordered
/// covered header names, and the raw signature bytes (base64 happens at
/// encoding time).
pub struct HttpSignatureParams {
    pub key_id: String,
    pub algorithm: SignatureAlgorithm,
    pub headers: Vec<Vec<u8>>,
    pub signature: Vec<u8>,
}

/// The UTF-8 bytes of a string.
pub open spec fn string_bytes(s: String) -> Seq<u8> {
    encode_utf8(s@)
}

/// The UTF-8 bytes of an optional string.
pub open spec fn opt_string_bytes(q: Option<String>) -> Option<Seq<u8>> {
    match q {
        Some(s) => Some(string_bytes(s)),
        None => None,
    }
}

/// The spec-level image of a raw textual header list.
pub open spec fn raw_string_bytes(hs: Seq<(String, String)>) -> Seq<(Seq<u8>, Seq<u8>)> {
    hs.map_values(|p: (String, String)| (string_bytes(p.0), string_bytes(p.1)))
}

/// The canonical entries of a message: its raw headers folded, with the
/// request-target pseudo-header merged in.
pub open spec fn canonical_entries(msg: MessageView) -> Seq<EntryModel> {
    spec_merge(
        spec_fold(raw_string_bytes(msg.headers@)),
        target_line(string_bytes(msg.method), string_bytes(msg.path), opt_string_bytes(msg.query)),
    )
}

/// The canonical signing string of a message.
pub open spec fn spec_signing_string(msg: MessageView) -> Seq<u8> {
    signing_bytes(canonical_entries(msg))
}

/// Builds the canonical signing string of a message view, together with the
/// ordered covered header names.
pub fn signing_string_of(msg: &MessageView, key_id: &str, algorithm: SignatureAlgorithm) -> (r:
    SigningString)
    ensures
        r.signing_string@ == spec_signing_string(*msg),
        r.headers.deep_view() == names_of(canonical_entries(*msg)),
        r.key_id@ == key_id@,
        r.algorithm == algorithm,
{
    let ghost rb = raw_string_bytes(msg.headers@);
    let mut raw: Vec<(Vec<u8>, Vec<u8>)> = Vec::new();
    let mut i: usize = 0;
    proof {
        assert(raw_model(raw@) =~= rb.take(0));
    }
    while i < msg.headers.len()
        invariant
            i <= msg.headers.len(),
            rb == raw_string_bytes(msg.headers@),
            rb.len() == msg.headers.len(),
            raw.len() == i,
            raw_model(raw@) == rb.take(i as int),
        decreases msg.headers.len() - i,
    {
        let n = msg.headers[i].0.as_str().as_bytes_vec();
        let v = msg.headers[i].1.as_str().as_bytes_vec();
        proof {
            assert(rb[i as int] == (
                string_bytes(msg.headers@[i as int].0),
                string_bytes(msg.headers@[i as int].1),
            ));
        }
        let ghost rp = raw@;
        raw.push((n, v));
        proof {
            assert forall|m: int| 0 <= m < rp.len() + 1 implies raw_model(raw@)[m] == rb.take(
                i + 1 as int,
            )[m] by {
                assert(raw_model(raw@)[m] == (raw@[m].0@, raw@[m].1@));
                if m < rp.len() {
                    assert(raw@[m] == rp[m]);
                    assert(raw_model(rp)[m] == (rp[m].0@, rp[m].1@));
                }
            }
            assert(raw_model(raw@) =~= rb.take(i + 1 as int));
        }
        i = i + 1;
    }
    proof {
        assert(rb.take(rb.len() as int) =~= rb);
    }
    let hs = HeaderSet::fold(&raw);
    let mb = msg.method.as_str().as_bytes_vec();
    let pb = msg.path.as_str().as_bytes_vec();
    let qb: Option<Vec<u8>> = match &msg.query {
        Some(q) => Some(q.as_str().as_bytes_vec()),
        None => None,
    };
    proof {
        assert(opt_bytes(qb) == opt_string_bytes(msg.query));
    }
    build(&mb, &pb, &qb, &hs, key_id, algorithm)
}

/// Computes the signature parameters for a message: the canonical signing
/// string is derived, signed with the given key, and returned with the
/// ordered covered header names. The message is not touched; a failure
/// leaves nothing half-done.
pub fn compute_signature(
    msg: &MessageView,
    key_id: &str,
    key: &Key,
    algorithm: SignatureAlgorithm,
) -> (r: Result<HttpSignatureParams, Error>)
    ensures
        key.family != algorithm.spec_family() ==> r == Err::<HttpSignatureParams, Error>(
            Error::Key,
        ),
        key.family == algorithm.spec_family() ==> (match spec_signature(
            algorithm,
            key.material@,
            spec_signing_string(*msg),
        ) {
            Some(s) => r matches Ok(p) && p.signature@ == s && p.headers.deep_view() == names_of(
                canonical_entries(*msg),
            ) && p.key_id@ == key_id@ && p.algorithm == algorithm,
            None => r == Err::<HttpSignatureParams, Error>(Error::Signing),
        }),
{
    let ss = signing_string_of(msg, key_id, algorithm);
    match sign(&ss.signing_string, key, algorithm) {
        Ok(v) => Ok(
            HttpSignatureParams {
                key_id: ss.key_id,
                algorithm: ss.algorithm,
                headers: ss.headers,
                signature: v,
            },
        ),
        Err(e) => Err(e),
    }
}

/// The bare signature-header value of a message: the encoded parameter
/// string itself, for a dedicated signature header.
pub fn signature_header(msg: &MessageView, key_id: &str, key: &Key, algorithm: SignatureAlgorithm)
    -> (r: Result<Vec<u8>, Error>)
    ensures
        key.family != algorithm.spec_family() ==> r == Err::<Vec<u8>, Error>(Error::Key),
        key.family == algorithm.spec_family() ==> (match spec_signature(
            algorithm,
            key.material@,
            spec_signing_string(*msg),
        ) {
            Some(s) => r matches Ok(v) && v@ == params_model(
                key_id.spec_bytes(),
                algorithm.spec_name(),
                names_of(canonical_entries(*msg)),
                base64_of(s),
            ),
            None => r == Err::<Vec<u8>, Error>(Error::Signing),
        }),
{
    match compute_signature(msg, key_id, key, algorithm) {
        Ok(p) => Ok(encode_params(key_id, p.algorithm, &p.headers, &p.signature)),
        Err(e) => Err(e),
    }
}

/// The scheme-wrapped authorization-header value of a message: the scheme
/// token `Signature`, one space, then exactly the bare parameter string.
pub fn authorization_header(
    msg: &MessageView,
    key_id: &str,
    key: &Key,
    algorithm: SignatureAlgorithm,
) -> (r: Result<Vec<u8>, Error>)
    ensures
        key.family != algorithm.spec_family() ==> r == Err::<Vec<u8>, Error>(Error::Key),
        key.family == algorithm.spec_family() ==> (match spec_signature(
            algorithm,
            key.material@,
            spec_signing_string(*msg),
        ) {
            Some(s) => r matches Ok(v) && v@ == "Signature".spec_bytes() + seq![32u8]
                + params_model(
                key_id.spec_bytes(),
                algorithm.spec_name(),
                names_of(canonical_entries(*msg)),
                base64_of(s),
            ),
            None => r == Err::<Vec<u8>, Error>(Error::Signing),
        }),
{
    match compute_signature(msg, key_id, key, algorithm) {
        Ok(p) => Ok(scheme_wrapped_params("Signature", key_id, p.algorithm, &p.headers, &p.signature)),
        Err(e) => Err(e),
    }
}

} // verus!
