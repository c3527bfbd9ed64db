use http_signatures::algorithm::{KeyFamily, ShaSize, SignatureAlgorithm};
use http_signatures::engine::{sign, verify, Key};
use http_signatures::error::Error;

use rsa::pkcs8::{EncodePrivateKey, EncodePublicKey};

fn hmac_key(secret: &[u8]) -> Key {
    Key { family: KeyFamily::Hmac, material: secret.to_vec() }
}

#[test]
fn hmac_sign_is_deterministic() {
    let key = hmac_key(b"secret");
    let msg = b"(request-target): post /foo".to_vec();
    let alg = SignatureAlgorithm::HMAC(ShaSize::TwoFiftySix);
    let s1 = sign(&msg, &key, alg).unwrap();
    let s2 = sign(&msg, &key, alg).unwrap();
    assert_eq!(s1, s2);
    assert_eq!(s1.len(), 32);
}

#[test]
fn hmac_round_trip_and_flipped_byte() {
    for alg in [
        SignatureAlgorithm::HMAC(ShaSize::TwoFiftySix),
        SignatureAlgorithm::HMAC(ShaSize::ThreeEightyFour),
        SignatureAlgorithm::HMAC(ShaSize::FiveTwelve),
    ] {
        let key = hmac_key(b"a shared secret");
        let msg = b"any string at all".to_vec();
        let sig = sign(&msg, &key, alg).unwrap();
        let expected_len = match alg {
            SignatureAlgorithm::HMAC(ShaSize::TwoFiftySix) => 32,
            SignatureAlgorithm::HMAC(ShaSize::ThreeEightyFour) => 48,
            _ => 64,
        };
        assert_eq!(sig.len(), expected_len);
        assert_eq!(verify(&msg, &sig, &key, alg), Ok(true));
        for i in 0..sig.len() {
            let mut bad = sig.clone();
            bad[i] ^= 0x01;
            assert_eq!(verify(&msg, &bad, &key, alg), Ok(false));
        }
        let truncated = sig[..sig.len() - 1].to_vec();
        assert_eq!(verify(&msg, &truncated, &key, alg), Ok(false));
    }
}

#[test]
fn family_mismatch_is_a_key_error() {
    let key = hmac_key(b"secret");
    let msg = b"m".to_vec();
    let alg = SignatureAlgorithm::RSA(ShaSize::TwoFiftySix);
    assert_eq!(sign(&msg, &key, alg), Err(Error::Key));
    assert_eq!(verify(&msg, &msg, &key, alg), Err(Error::Key));
}

#[test]
fn unusable_rsa_key_is_a_signing_error() {
    let key = Key { family: KeyFamily::Rsa, material: vec![1, 2, 3] };
    let msg = b"m".to_vec();
    let alg = SignatureAlgorithm::RSA(ShaSize::TwoFiftySix);
    assert_eq!(sign(&msg, &key, alg), Err(Error::Signing));
}

#[test]
fn rsa_round_trip_and_flipped_byte() {
    let mut rng = rand::thread_rng();
    let private = rsa::RsaPrivateKey::new(&mut rng, 512).unwrap();
    let key = Key {
        family: KeyFamily::Rsa,
        material: private.to_pkcs8_der().unwrap().as_bytes().to_vec(),
    };
    let public = Key {
        family: KeyFamily::Rsa,
        material: private.to_public_key().to_public_key_der().unwrap().as_bytes().to_vec(),
    };
    let msg = b"(request-target): post /foo".to_vec();
    let alg = SignatureAlgorithm::RSA(ShaSize::TwoFiftySix);
    let sig = sign(&msg, &key, alg).unwrap();
    let sig_again = sign(&msg, &key, alg).unwrap();
    assert_eq!(sig, sig_again);
    assert_eq!(verify(&msg, &sig, &public, alg), Ok(true));
    let mut bad = sig.clone();
    bad[0] ^= 0x01;
    assert_eq!(verify(&msg, &bad, &public, alg), Ok(false));
    assert_eq!(verify(&msg, &vec![0u8; 3], &public, alg), Ok(false));
}

#[test]
fn error_messages_name_each_case() {
    assert!(Error::Key.message().contains("key"));
    assert!(Error::Encoding.message().contains("text"));
    assert!(Error::Signing.message().contains("primitive"));
    assert!(Error::Conversion.message().contains("incomplete"));
}

fn hex(bytes: &[u8]) -> String {
    bytes.iter().map(|b| format!("{:02x}", b)).collect()
}

#[test]
fn hmac_matches_published_test_vectors() {
    let key = hmac_key(&[0x0b; 20]);
    let msg = b"Hi There".to_vec();
    let tag256 = sign(&msg, &key, SignatureAlgorithm::HMAC(ShaSize::TwoFiftySix)).unwrap();
    assert_eq!(
        hex(&tag256),
        "b0344c61d8db38535ca8afceaf0bf12b881dc200c9833da726e9376c2e32cff7",
    );
    let tag384 = sign(&msg, &key, SignatureAlgorithm::HMAC(ShaSize::ThreeEightyFour)).unwrap();
    assert_eq!(
        hex(&tag384),
        "afd03944d84895626b0825f4ab46907f15f9dadbe4101ec682aa034c7cebc59cfaea9ea9076ede7f4af152e8b2fa9cb6",
    );
    let tag512 = sign(&msg, &key, SignatureAlgorithm::HMAC(ShaSize::FiveTwelve)).unwrap();
    assert_eq!(
        hex(&tag512),
        "87aa7cdea5ef619d4ff0b4241a1d6cb02379f4e2ce4ec2787ad0b30545e17cdedaa833b7d6b8a702038b274eaea3f4e4be9d914eeb61f1702e696c203a126854",
    );
}
