use huobi_client::build_query_string;
use huobi_client::Client;
use huobi_client::ParamMap;

fn map_of(pairs: &[(&str, &str)]) -> ParamMap {
    let mut m = ParamMap::new();
    for (k, v) in pairs {
        m.insert(k.to_string(), v.to_string());
    }
    m
}

#[test]
fn canonicalization_is_insertion_order_independent() {
    let a = map_of(&[("symbol", "btcusdt"), ("type", "buy"), ("amount", "1.5")]);
    let b = map_of(&[("type", "buy"), ("amount", "1.5"), ("symbol", "btcusdt")]);
    let c = map_of(&[("amount", "1.5"), ("symbol", "btcusdt"), ("type", "buy")]);
    let qa = build_query_string(a);
    let qb = build_query_string(b);
    let qc = build_query_string(c);
    assert_eq!(qa, qb);
    assert_eq!(qb, qc);
    assert_eq!(qa, "amount=1.5&symbol=btcusdt&type=buy");
}

#[test]
fn canonicalization_sorts_keys_alphabetically() {
    let m = map_of(&[("symbol", "btcusdt"), ("type", "buy")]);
    assert_eq!(build_query_string(m), "symbol=btcusdt&type=buy");
}

#[test]
fn canonicalization_of_empty_set_is_empty() {
    let m = ParamMap::new();
    assert_eq!(build_query_string(m), "");
}

#[test]
fn inserting_an_existing_key_replaces_its_value() {
    let mut m = ParamMap::new();
    m.insert("symbol".to_string(), "btcusdt".to_string());
    m.insert("symbol".to_string(), "ethusdt".to_string());
    assert_eq!(m.len(), 1);
    assert_eq!(build_query_string(m), "symbol=ethusdt");
}

#[test]
fn canonicalization_percent_encodes_values() {
    let m = map_of(&[("note", "a+b, c")]);
    assert_eq!(build_query_string(m), "note=a%2Bb%2C%20c");
}

#[test]
fn build_request_joins_raw_values() {
    let m = map_of(&[("b", "2"), ("a", "1+1")]);
    assert_eq!(Client::build_request(&m), "a=1+1&b=2");
}

#[test]
fn build_request_of_empty_set_is_empty() {
    let m = ParamMap::new();
    assert_eq!(Client::build_request(&m), "");
}

#[test]
fn unsigned_url_has_no_dangling_separator() {
    let client = Client::new("key", "secret");
    let url = client.get_url("/market/tickers", ParamMap::new());
    assert_eq!(url, "https://api.huobi.pro/market/tickers");
    let m = map_of(&[("symbol", "btcusdt")]);
    let url = client.get_url("/market/detail", m);
    assert_eq!(url, "https://api.huobi.pro/market/detail?symbol=btcusdt");
}
