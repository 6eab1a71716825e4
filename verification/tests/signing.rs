use huobi_client::sign_hmac_sha256_base64;

#[test]
fn signature_matches_known_answer_vector() {
    // HMAC-SHA256 test case of RFC 4231 (section 4.3), base64-encoded.
    let sig = sign_hmac_sha256_base64("Jefe", "what do ya want for nothing?");
    assert_eq!(sig, "W9zBRr9gdU5qBCQmCJV1x1oAPwidJzmDnexYuWTsOEM=");
}

#[test]
fn signature_is_deterministic() {
    let first = sign_hmac_sha256_base64("secret", "GET\napi.huobi.pro\n/v1/order\na=1");
    let second = sign_hmac_sha256_base64("secret", "GET\napi.huobi.pro\n/v1/order\na=1");
    assert_eq!(first, second);
}

#[test]
fn signature_is_padded_base64_of_a_32_byte_tag() {
    let sig = sign_hmac_sha256_base64("", "");
    assert_eq!(sig.len(), 44);
    assert!(sig.ends_with('='));
}
