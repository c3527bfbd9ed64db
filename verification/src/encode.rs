//! The header encoder.
//!
//! Formats a key id, algorithm name, ordered header-name list and signature
//! bytes into the standard parameter string
//! `keyId="…",algorithm="…",headers="…",signature="…"`, either bare or
//! wrapped behind an authentication-scheme token. Pure formatting; the same
//! inputs always produce the same bytes.

use vstd::prelude::*;
use vstd::string::StringSliceAdditionalSpecFns;
use vstd::string::StrSliceExecFns;

use crate::algorithm::SignatureAlgorithm;
use crate::canon::append_bytes;

verus! {

/// The standard (padded) base64 encoding of a byte string, as ASCII bytes.
pub uninterp spec fn base64_of(b: Seq<u8>) -> Seq<u8>;

/// Relies on base64's `Engine::encode` with the standard-alphabet engine:
/// the encoding is a deterministic function of the input bytes alone, and an
/// empty input encodes to the empty string.
#[verifier::external_body]
fn base64_encode(b: &Vec<u8>) -> (r: Vec<u8>)
    ensures
        r@ == base64_of(b@),
        b@.len() == 0 ==> r@.len() == 0,
{
    base64::Engine::encode(&base64::engine::general_purpose::STANDARD, b.as_slice()).into_bytes()
}

/// The header names joined by one space, in the exact order given.
pub open spec fn space_joined(ns: Seq<Seq<u8>>) -> Seq<u8>
    decreases ns.len(),
{
    if ns.len() == 0 {
        Seq::empty()
    } else if ns.len() == 1 {
        ns[0]
    } else {
        space_joined(ns.drop_last()) + seq![32u8] + ns.last()
    }
}

/// The parameter string for a key id, algorithm name, ordered name list and
/// base64-encoded signature.
pub open spec fn params_model(
    key_id: Seq<u8>,
    alg_name: Seq<u8>,
    names: Seq<Seq<u8>>,
    sig_b64: Seq<u8>,
) -> Seq<u8> {
    "keyId=\"".spec_bytes() + key_id + "\",algorithm=\"".spec_bytes() + alg_name
        + "\",headers=\"".spec_bytes() + space_joined(names) + "\",signature=\"".spec_bytes()
        + sig_b64 + "\"".spec_bytes()
}

/// Renders the space-joined header-name list.
fn render_space_joined(ns: &Vec<Vec<u8>>) -> (r: Vec<u8>)
    ensures
        r@ == space_joined(ns.deep_view()),
{
    let ghost d = ns.deep_view();
    let mut r: Vec<u8> = Vec::new();
    let mut i: usize = 0;
    proof {
        assert(r@ =~= space_joined(d.take(0)));
    }
    while i < ns.len()
        invariant
            i <= ns.len(),
            d == ns.deep_view(),
            d.len() == ns.len(),
            r@ == space_joined(d.take(i as int)),
        decreases ns.len() - i,
    {
        if i > 0 {
            r.push(32);
        }
        append_bytes(&mut r, &ns[i]);
        proof {
            assert(ns@[i as int]@ == d[i as int]);
            let t1 = d.take(i + 1 as int);
            assert(t1.drop_last() =~= d.take(i as int));
            assert(t1.last() == d[i as int]);
            if i == 0 {
                assert(space_joined(t1) == t1[0]);
                assert(r@ =~= d[0]);
            } else {
                assert(r@ =~= space_joined(d.take(i as int)) + seq![32u8] + d[i as int]);
            }
        }
        i = i + 1;
    }
    proof {
        assert(d.take(d.len() as int) =~= d);
    }
    r
}

/// Encodes the signature parameters as a bare header value: the base64 of
/// the signature bytes and the header names exactly in the order received.
pub fn encode_params(
    key_id: &str,
    algorithm: SignatureAlgorithm,
    headers: &Vec<Vec<u8>>,
    signature: &Vec<u8>,
) -> (r: Vec<u8>)
    ensures
        r@ == params_model(
            key_id.spec_bytes(),
            algorithm.spec_name(),
            headers.deep_view(),
            base64_of(signature@),
        ),
{
    let mut r = "keyId=\"".as_bytes_vec();
    let kid = key_id.as_bytes_vec();
    append_bytes(&mut r, &kid);
    let lit_alg = "\",algorithm=\"".as_bytes_vec();
    append_bytes(&mut r, &lit_alg);
    let alg = algorithm.name().as_bytes_vec();
    append_bytes(&mut r, &alg);
    let lit_hdr = "\",headers=\"".as_bytes_vec();
    append_bytes(&mut r, &lit_hdr);
    let names = render_space_joined(headers);
    append_bytes(&mut r, &names);
    let lit_sig = "\",signature=\"".as_bytes_vec();
    append_bytes(&mut r, &lit_sig);
    let b64 = base64_encode(signature);
    append_bytes(&mut r, &b64);
    let lit_end = "\"".as_bytes_vec();
    append_bytes(&mut r, &lit_end);
    proof {
        assert(r@ =~= params_model(
            key_id.spec_bytes(),
            algorithm.spec_name(),
            headers.deep_view(),
            base64_of(signature@),
        ));
    }
    r
}

/// Encodes the same parameter string behind an authentication-scheme token:
/// the token, one space, then parameter content identical to the bare form.
pub fn scheme_wrapped_params(
    scheme: &str,
    key_id: &str,
    algorithm: SignatureAlgorithm,
    headers: &Vec<Vec<u8>>,
    signature: &Vec<u8>,
) -> (r: Vec<u8>)
    ensures
        r@ == scheme.spec_bytes() + seq![32u8] + params_model(
            key_id.spec_bytes(),
            algorithm.spec_name(),
            headers.deep_view(),
            base64_of(signature@),
        ),
{
    let mut r = scheme.as_bytes_vec();
    r.push(32);
    let params = encode_params(key_id, algorithm, headers, signature);
    append_bytes(&mut r, &params);
    proof {
        assert(r@ =~= scheme.spec_bytes() + seq![32u8] + params_model(
            key_id.spec_bytes(),
            algorithm.spec_name(),
            headers.deep_view(),
            base64_of(signature@),
        ));
    }
    r
}

} // verus!
