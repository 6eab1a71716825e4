use huobi_client::Client;
use huobi_client::HttpMethod;
use huobi_client::ParamMap;

#[test]
fn signed_url_matches_known_answer() {
    let client = Client::new("key", "secret");
    let url = client
        .signed_url(
            HttpMethod::Get,
            "/v1/account/accounts",
            ParamMap::new(),
            "2021-01-01T00:00:00",
        )
        .unwrap();
    assert_eq!(
        url,
        "https://api.huobi.pro/v1/account/accounts?AccessKeyId=key&SignatureMethod=HmacSHA256\
         &SignatureVersion=2&Timestamp=2021-01-01T00%3A00%3A00\
         &Signature=1c2UhTSVIsErBDKDzNGLMhq523FhaHMJF4aPH1VDTk8%3D"
    );
}

#[test]
fn empty_caller_parameters_still_carry_the_four_auth_parameters() {
    let client = Client::new("my-access-key", "my-secret");
    for method in [HttpMethod::Get, HttpMethod::Post] {
        let url = client
            .signed_url(method, "/v1/order/orders/place", ParamMap::new(), "2021-01-01T00:00:00")
            .unwrap();
        let query = url.split_once('?').unwrap().1;
        assert!(query.starts_with("AccessKeyId=my-access-key"));
        assert!(query.contains("&SignatureMethod=HmacSHA256"));
        assert!(query.contains("&SignatureVersion=2"));
        assert!(query.contains("&Timestamp=2021-01-01T00%3A00%3A00"));
        let sig = query.split("&Signature=").nth(1).unwrap();
        assert!(sig.len() >= 46);
        assert!(sig.ends_with("%3D"));
    }
}

#[test]
fn caller_parameters_sort_together_with_auth_parameters() {
    let client = Client::new("key", "secret");
    let mut params = ParamMap::new();
    params.insert("symbol".to_string(), "btcusdt".to_string());
    params.insert("Abc".to_string(), "1".to_string());
    let url = client
        .signed_url(HttpMethod::Post, "/v1/order", params, "2022-02-02T02:02:02")
        .unwrap();
    let query = url.split_once('?').unwrap().1;
    let names: Vec<&str> = query
        .split('&')
        .map(|kv| kv.split_once('=').unwrap().0)
        .collect();
    assert_eq!(
        names,
        [
            "Abc",
            "AccessKeyId",
            "SignatureMethod",
            "SignatureVersion",
            "Timestamp",
            "symbol",
            "Signature",
        ]
    );
}

#[test]
fn insertion_order_does_not_change_the_signed_url() {
    let client = Client::new("key", "secret");
    let mut first = ParamMap::new();
    first.insert("symbol".to_string(), "btcusdt".to_string());
    first.insert("type".to_string(), "buy".to_string());
    let mut second = ParamMap::new();
    second.insert("type".to_string(), "buy".to_string());
    second.insert("symbol".to_string(), "btcusdt".to_string());
    let url_first = client
        .signed_url(HttpMethod::Get, "/v1/order", first, "2021-01-01T00:00:00")
        .unwrap();
    let url_second = client
        .signed_url(HttpMethod::Get, "/v1/order", second, "2021-01-01T00:00:00")
        .unwrap();
    assert_eq!(url_first, url_second);
}

#[test]
fn method_changes_the_signature() {
    let client = Client::new("key", "secret");
    let get = client
        .signed_url(HttpMethod::Get, "/v1/order", ParamMap::new(), "2021-01-01T00:00:00")
        .unwrap();
    let post = client
        .signed_url(HttpMethod::Post, "/v1/order", ParamMap::new(), "2021-01-01T00:00:00")
        .unwrap();
    let (get_base, get_sig) = get.split_once("&Signature=").unwrap();
    let (post_base, post_sig) = post.split_once("&Signature=").unwrap();
    assert_eq!(get_base, post_base);
    assert_ne!(get_sig, post_sig);
}

#[test]
fn timestamped_signed_urls_have_the_wire_shape() {
    let client = Client::new("key", "secret");
    let url = client
        .get_signed_url("/v1/account/accounts", ParamMap::new())
        .unwrap();
    assert!(url.starts_with("https://api.huobi.pro/v1/account/accounts?AccessKeyId=key"));
    assert!(url.contains("&Timestamp="));
    assert!(url.contains("&Signature="));
    let url = client
        .post_signed_url("/v1/order/orders/place", ParamMap::new())
        .unwrap();
    assert!(url.starts_with("https://api.huobi.pro/v1/order/orders/place?AccessKeyId=key"));
    assert!(url.contains("&Signature="));
}
