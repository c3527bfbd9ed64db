use http_signatures::algorithm::{KeyFamily, ShaSize, SignatureAlgorithm};
use http_signatures::encode::encode_params;
use http_signatures::engine::Key;
use http_signatures::message::{authorization_header, compute_signature, signature_header,
    MessageView};

fn msg() -> MessageView {
    MessageView {
        method: "POST".to_string(),
        path: "/foo".to_string(),
        query: None,
        headers: vec![
            ("Host".to_string(), "example.org".to_string()),
            ("Date".to_string(), "Tue, 07 Jun 2014 20:51:35 GMT".to_string()),
        ],
    }
}

fn hmac_key() -> Key {
    Key { family: KeyFamily::Hmac, material: b"secret".to_vec() }
}

#[test]
fn params_follow_the_wire_grammar() {
    let names = vec![b"(request-target)".to_vec(), b"date".to_vec(), b"host".to_vec()];
    let sig = b"hello".to_vec();
    let out = encode_params("key-1", SignatureAlgorithm::RSA(ShaSize::TwoFiftySix), &names, &sig);
    assert_eq!(
        String::from_utf8(out).unwrap(),
        "keyId=\"key-1\",algorithm=\"rsa-sha256\",headers=\"(request-target) date host\",signature=\"aGVsbG8=\"",
    );
}

#[test]
fn empty_signature_encodes_to_empty_base64() {
    let names = vec![b"(request-target)".to_vec()];
    let out = encode_params("k", SignatureAlgorithm::HMAC(ShaSize::FiveTwelve), &names, &Vec::new());
    assert_eq!(
        String::from_utf8(out).unwrap(),
        "keyId=\"k\",algorithm=\"hmac-sha512\",headers=\"(request-target)\",signature=\"\"",
    );
}

#[test]
fn headers_parameter_lists_names_in_line_order() {
    let alg = SignatureAlgorithm::HMAC(ShaSize::TwoFiftySix);
    let params = compute_signature(&msg(), "my-key", &hmac_key(), alg).unwrap();
    let names: Vec<String> = params
        .headers
        .iter()
        .map(|n| String::from_utf8(n.clone()).unwrap())
        .collect();
    assert_eq!(names, vec!["(request-target)", "date", "host"]);
    let value = String::from_utf8(signature_header(&msg(), "my-key", &hmac_key(), alg).unwrap())
        .unwrap();
    assert!(value.contains("headers=\"(request-target) date host\""));
    assert!(value.starts_with("keyId=\"my-key\",algorithm=\"hmac-sha256\","));
}

#[test]
fn scheme_wrapped_value_is_scheme_plus_bare_value() {
    let alg = SignatureAlgorithm::HMAC(ShaSize::ThreeEightyFour);
    let bare = signature_header(&msg(), "my-key", &hmac_key(), alg).unwrap();
    let wrapped = authorization_header(&msg(), "my-key", &hmac_key(), alg).unwrap();
    let mut expected = b"Signature ".to_vec();
    expected.extend_from_slice(&bare);
    assert_eq!(wrapped, expected);
}

#[test]
fn algorithm_names_are_lowercase_dash_joined() {
    assert_eq!(SignatureAlgorithm::RSA(ShaSize::TwoFiftySix).name(), "rsa-sha256");
    assert_eq!(SignatureAlgorithm::RSA(ShaSize::ThreeEightyFour).name(), "rsa-sha384");
    assert_eq!(SignatureAlgorithm::RSA(ShaSize::FiveTwelve).name(), "rsa-sha512");
    assert_eq!(SignatureAlgorithm::HMAC(ShaSize::TwoFiftySix).name(), "hmac-sha256");
    assert_eq!(SignatureAlgorithm::HMAC(ShaSize::ThreeEightyFour).name(), "hmac-sha384");
    assert_eq!(SignatureAlgorithm::HMAC(ShaSize::FiveTwelve).name(), "hmac-sha512");
}

#[test]
fn signing_a_message_twice_yields_the_same_header() {
    let alg = SignatureAlgorithm::HMAC(ShaSize::TwoFiftySix);
    let a = signature_header(&msg(), "k", &hmac_key(), alg).unwrap();
    let b = signature_header(&msg(), "k", &hmac_key(), alg).unwrap();
    assert_eq!(a, b);
}
