use huobi_client::build_headers;

#[test]
fn post_headers_declare_json() {
    let headers = build_headers(true);
    assert_eq!(
        headers,
        vec![
            ("User-Agent".to_string(), "rs".to_string()),
            ("Content-Type".to_string(), "application/json".to_string()),
            ("Accept".to_string(), "application/json".to_string()),
        ]
    );
}

#[test]
fn get_headers_declare_form_urlencoded() {
    let headers = build_headers(false);
    assert_eq!(
        headers,
        vec![
            ("User-Agent".to_string(), "rs".to_string()),
            (
                "Content-Type".to_string(),
                "application/x-www-form-urlencoded".to_string()
            ),
        ]
    );
}
