use huobi_client::check_response;
use huobi_client::HuobiError;

#[test]
fn error_status_fails_with_an_api_error() {
    let body = r#"{"status":"error","err-code":"x","err-msg":"y"}"#;
    match check_response(body.to_string()) {
        Err(HuobiError::ApiError(m)) => assert_eq!(m, body),
        other => panic!("expected an API error, got {:?}", other.is_ok()),
    }
}

#[test]
fn ok_status_returns_the_raw_body() {
    let body = r#"{"status":"ok","data":[]}"#;
    assert_eq!(check_response(body.to_string()).unwrap(), body);
}

#[test]
fn missing_status_returns_the_raw_body() {
    let body = r#"{"data":{"id":42}}"#;
    assert_eq!(check_response(body.to_string()).unwrap(), body);
}

#[test]
fn unparsable_body_fails_with_a_deserialization_error() {
    let body = "not json at all";
    match check_response(body.to_string()) {
        Err(HuobiError::DeserializeError(m)) => assert_eq!(m, body),
        other => panic!("expected a deserialization error, got {:?}", other.is_ok()),
    }
}

#[test]
fn non_object_body_fails_with_a_deserialization_error() {
    match check_response("[1,2,3]".to_string()) {
        Err(HuobiError::DeserializeError(m)) => assert_eq!(m, "[1,2,3]"),
        other => panic!("expected a deserialization error, got {:?}", other.is_ok()),
    }
}

#[test]
fn null_status_counts_as_missing() {
    let body = r#"{"status":null,"data":1}"#;
    assert_eq!(check_response(body.to_string()).unwrap(), body);
}

#[test]
fn non_string_status_fails_with_a_deserialization_error() {
    match check_response(r#"{"status":5}"#.to_string()) {
        Err(HuobiError::DeserializeError(_)) => {}
        other => panic!("expected a deserialization error, got {:?}", other.is_ok()),
    }
}
