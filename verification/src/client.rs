//! The credential-bound client: building fully formed request targets for
//! the exchange's REST API, signed where the endpoint demands it.
//!
//! A signed target is assembled in fixed steps: inject the four auth
//! parameters, canonicalize, sign the pre-sign string
//! `METHOD\nHOST\nPATH\nCANONICAL_QUERY`, and append the percent-encoded
//! signature.  Dispatching the request and reading the response stay with
//! the transport collaborator; checking the body against the error envelope
//! is [`crate::response::check_response`].

use vstd::prelude::*;

verus! {

use vstd::string::*;
use vstd::utf8::encode_utf8;

broadcast use vstd::slice::axiom_spec_len;
use crate::encoding::percent_encode;
use crate::encoding::percent_encoded;
use crate::params::ParamMap;
use crate::params::build_query_string;
use crate::params::canonical_query_of;
use crate::params::lemma_sorted_insert_props;
use crate::params::map_of;
use crate::params::raw_query_of;
use crate::params::sorted_insert;
use crate::params::sorted_keys;
use crate::params::pairs_view;
use crate::signing::base64_of;
use crate::signing::hmac_sha256_of;
use crate::signing::sign_hmac_sha256_base64;
use crate::time::DateParts;
use crate::time::get_timestamp;
use crate::time::timestamp_chars;

/// The fixed API host; a literal component of every pre-sign string.
pub open spec fn host_chars() -> Seq<char> {
    "api.huobi.pro"@
}

fn api_host() -> (r: &'static str)
    ensures
        r@ == host_chars(),
{
    "api.huobi.pro"
}

/// The HTTP method of a signed request.
#[derive(Clone, Copy)]
pub enum HttpMethod {
    Get,
    Post,
}

impl HttpMethod {
    /// The method's uppercase wire text.
    pub open spec fn text(self) -> Seq<char> {
        match self {
            HttpMethod::Get => "GET"@,
            HttpMethod::Post => "POST"@,
        }
    }

    fn as_str(self) -> (r: &'static str)
        ensures
            r@ == self.text(),
    {
        match self {
            HttpMethod::Get => "GET",
            HttpMethod::Post => "POST",
        }
    }
}

/// The caller's parameters with the four auth parameters injected:
/// `AccessKeyId`, `SignatureMethod=HmacSHA256`, `SignatureVersion=2` and
/// the formatted `Timestamp`, each in its sorted place.
pub open spec fn with_auth(
    ps: Seq<(Seq<char>, Seq<char>)>,
    api_key: Seq<char>,
    ts: Seq<char>,
) -> Seq<(Seq<char>, Seq<char>)> {
    sorted_insert(
        sorted_insert(
            sorted_insert(sorted_insert(ps, "AccessKeyId"@, api_key), "SignatureMethod"@, "HmacSHA256"@),
            "SignatureVersion"@,
            "2"@,
        ),
        "Timestamp"@,
        ts,
    )
}

/// The pre-sign string: method, host, path and canonical query,
/// newline-joined, no trailing newline.
pub open spec fn presign_chars(method: HttpMethod, endpoint: Seq<char>, query: Seq<char>) -> Seq<
    char,
> {
    method.text() + seq!['\n'] + host_chars() + seq!['\n'] + endpoint + seq!['\n'] + query
}

/// The signature text for a request: base64 of the HMAC-SHA256 tag of the
/// pre-sign string under the secret.
pub open spec fn signature_chars(
    secret: Seq<char>,
    method: HttpMethod,
    endpoint: Seq<char>,
    query: Seq<char>,
) -> Seq<char> {
    base64_of(hmac_sha256_of(encode_utf8(secret), encode_utf8(presign_chars(method, endpoint, query))))
}

/// Whether the signing inputs stay below the HMAC input-length limit; every
/// realistic request does.
pub open spec fn within_sign_limit(secret: Seq<char>, presign: Seq<char>) -> bool {
    encode_utf8(secret).len() < 0x1000_0000_0000_0000 && encode_utf8(presign).len()
        < 0x1000_0000_0000_0000
}

/// The full signed request target:
/// `https://{host}{endpoint}?{canonical_query}&Signature={encoded_signature}`,
/// the signature outside the signed portion.
pub open spec fn signed_url_chars(
    secret: Seq<char>,
    method: HttpMethod,
    endpoint: Seq<char>,
    qps: Seq<(Seq<char>, Seq<char>)>,
) -> Seq<char> {
    "https://"@ + host_chars() + endpoint + seq!['?'] + canonical_query_of(qps) + "&Signature="@
        + percent_encoded(signature_chars(secret, method, endpoint, canonical_query_of(qps)))
}

/// The unsigned request target: the canonical query behind `?`, or the bare
/// path when the query is empty — never a dangling `?`.
pub open spec fn unsigned_url_chars(endpoint: Seq<char>, ps: Seq<(Seq<char>, Seq<char>)>) -> Seq<
    char,
> {
    let q = canonical_query_of(ps);
    if q.len() == 0 {
        "https://"@ + host_chars() + endpoint
    } else {
        "https://"@ + host_chars() + endpoint + seq!['?'] + q
    }
}

/// What a signed-target builder may return for given inputs and timestamp:
/// the exact target when the signing inputs are within the length limit,
/// nothing otherwise.
pub open spec fn signed_url_result(
    c: Client,
    method: HttpMethod,
    endpoint: Seq<char>,
    ps: Seq<(Seq<char>, Seq<char>)>,
    ts: Seq<char>,
    r: Option<String>,
) -> bool {
    let qps = with_auth(ps, c.api_key_chars(), ts);
    let presign = presign_chars(method, endpoint, canonical_query_of(qps));
    match r {
        Some(u) => within_sign_limit(c.secret_chars(), presign) && u@ == signed_url_chars(
            c.secret_chars(),
            method,
            endpoint,
            qps,
        ),
        None => !within_sign_limit(c.secret_chars(), presign),
    }
}

/// A client bound to one credential pair for its whole lifetime.
#[derive(Clone)]
pub struct Client {
    api_key: String,
    secret_key: String,
}

/// A credential pair as handed in at construction.
#[derive(Clone)]
pub struct APIKey {
    #[allow(dead_code)]
    api_key: String,
    #[allow(dead_code)]
    secret_key: String,
}

impl Client {
    /// The held API key identifier.
    pub closed spec fn api_key_chars(self) -> Seq<char> {
        self.api_key@
    }

    /// The held secret; it never appears in a request, only its HMAC does.
    pub closed spec fn secret_chars(self) -> Seq<char> {
        self.secret_key@
    }

    /// Bind a client to a credential pair.
    pub fn new(api_key: &str, secret_key: &str) -> (r: Self)
        ensures
            r.api_key_chars() == api_key@,
            r.secret_chars() == secret_key@,
    {
        Client { api_key: api_key.to_owned(), secret_key: secret_key.to_owned() }
    }

    /// Join a parameter set as `key=value` entries with `&`, values as they
    /// stand, no trailing separator.
    pub fn build_request(parameters: &ParamMap) -> (r: String)
        ensures
            r@ == raw_query_of(parameters@),
    {
        crate::params::build_raw_query(parameters)
    }

    /// The target of an unsigned (public) GET request: the caller's
    /// parameters canonicalized as-is, no auth parameters and no signature.
    pub fn get_url(&self, endpoint: &str, params: ParamMap) -> (r: String)
        ensures
            r@ == unsigned_url_chars(endpoint@, params@),
    {
        let ghost ps = params@;
        let query = build_query_string(params);
        let mut url = String::new();
        url.append("https://");
        url.append(api_host());
        url.append(endpoint);
        if !query.as_str().is_empty() {
            crate::encoding::push_char(&mut url, '?');
            url.append(query.as_str());
        }
        proof {
            assert(url@ =~= unsigned_url_chars(endpoint@, ps));
        }
        url
    }

    /// The target of a signed request for a given timestamp: auth
    /// parameters injected, parameters canonicalized, the pre-sign string
    /// signed, and the percent-encoded signature appended outside the
    /// signed portion.  Returns nothing only when the signing inputs exceed
    /// the HMAC input-length limit.
    pub fn signed_url(
        &self,
        method: HttpMethod,
        endpoint: &str,
        mut params: ParamMap,
        timestamp: &str,
    ) -> (r: Option<String>)
        requires
            params.wf(),
        ensures
            signed_url_result(*self, method, endpoint@, params@, timestamp@, r),
    {
        let ghost ps = params@;
        params.insert(String::from_str("AccessKeyId"), self.api_key.clone());
        params.insert(String::from_str("SignatureMethod"), String::from_str("HmacSHA256"));
        params.insert(String::from_str("SignatureVersion"), String::from_str("2"));
        params.insert(String::from_str("Timestamp"), String::from_str(timestamp));
        proof {
            assert(params@ == with_auth(ps, self.api_key_chars(), timestamp@));
        }
        let ghost qps = params@;
        let query = build_query_string(params);
        let mut presign = String::new();
        presign.append(method.as_str());
        crate::encoding::push_char(&mut presign, '\n');
        presign.append(api_host());
        crate::encoding::push_char(&mut presign, '\n');
        presign.append(endpoint);
        crate::encoding::push_char(&mut presign, '\n');
        presign.append(query.as_str());
        proof {
            assert(presign@ =~= presign_chars(method, endpoint@, canonical_query_of(qps)));
        }
        let secret_byte_len = self.secret_key.as_str().as_bytes().len();
        let presign_byte_len = presign.as_str().as_bytes().len();
        if (secret_byte_len as u64) >= 0x1000_0000_0000_0000 || (presign_byte_len as u64)
            >= 0x1000_0000_0000_0000 {
            return None;
        }
        let signature = sign_hmac_sha256_base64(self.secret_key.as_str(), presign.as_str());
        let encoded_signature = percent_encode(signature.as_str());
        let mut url = String::new();
        url.append("https://");
        url.append(api_host());
        url.append(endpoint);
        crate::encoding::push_char(&mut url, '?');
        url.append(query.as_str());
        url.append("&Signature=");
        url.append(encoded_signature.as_str());
        proof {
            assert(url@ =~= signed_url_chars(self.secret_chars(), method, endpoint@, qps));
        }
        Some(url)
    }

    /// The target of a signed GET request, timestamped with the current UTC
    /// time.
    pub fn get_signed_url(&self, endpoint: &str, params: ParamMap) -> (r: Option<String>)
        requires
            params.wf(),
        ensures
            exists|p: DateParts|
                p.wf() && signed_url_result(
                    *self,
                    HttpMethod::Get,
                    endpoint@,
                    params@,
                    timestamp_chars(p),
                    r,
                ),
    {
        let ghost ps = params@;
        let ts = get_timestamp();
        let ghost tsp = choose|p: DateParts| p.wf() && ts@ == timestamp_chars(p);
        let r = self.signed_url(HttpMethod::Get, endpoint, params, ts.as_str());
        proof {
            assert(signed_url_result(
                *self,
                HttpMethod::Get,
                endpoint@,
                ps,
                timestamp_chars(tsp),
                r,
            ));
        }
        r
    }

    /// The target of a signed POST request, timestamped with the current
    /// UTC time.  The JSON payload rides in the request body and is not
    /// part of the signed portion.
    pub fn post_signed_url(&self, endpoint: &str, params: ParamMap) -> (r: Option<String>)
        requires
            params.wf(),
        ensures
            exists|p: DateParts|
                p.wf() && signed_url_result(
                    *self,
                    HttpMethod::Post,
                    endpoint@,
                    params@,
                    timestamp_chars(p),
                    r,
                ),
    {
        let ghost ps = params@;
        let ts = get_timestamp();
        let ghost tsp = choose|p: DateParts| p.wf() && ts@ == timestamp_chars(p);
        let r = self.signed_url(HttpMethod::Post, endpoint, params, ts.as_str());
        proof {
            assert(signed_url_result(
                *self,
                HttpMethod::Post,
                endpoint@,
                ps,
                timestamp_chars(tsp),
                r,
            ));
        }
        r
    }
}

/// The headers a request carries: a JSON content type and accept for POST,
/// a form-urlencoded content type for GET, and a fixed user agent either
/// way.
pub open spec fn headers_of(post_method: bool) -> Seq<(Seq<char>, Seq<char>)> {
    if post_method {
        seq![
            ("User-Agent"@, "rs"@),
            ("Content-Type"@, "application/json"@),
            ("Accept"@, "application/json"@),
        ]
    } else {
        seq![("User-Agent"@, "rs"@), ("Content-Type"@, "application/x-www-form-urlencoded"@)]
    }
}

/// The header names and values for a request, as plain strings; the
/// transport collaborator turns them into its own header type.
pub fn build_headers(post_method: bool) -> (r: Vec<(String, String)>)
    ensures
        pairs_view(r@) == headers_of(post_method),
{
    let mut headers: Vec<(String, String)> = Vec::new();
    headers.push((String::from_str("User-Agent"), String::from_str("rs")));
    if post_method {
        headers.push((String::from_str("Content-Type"), String::from_str("application/json")));
        headers.push((String::from_str("Accept"), String::from_str("application/json")));
    } else {
        headers.push(
            (String::from_str("Content-Type"), String::from_str(
                "application/x-www-form-urlencoded",
            )),
        );
    }
    proof {
        assert(pairs_view(headers@) =~= headers_of(post_method));
    }
    headers
}

/// The whole signed target is insertion-order independent: two parameter
/// sets holding the same mapping yield the same signed URL for the same
/// credentials, method, endpoint and timestamp.
pub proof fn lemma_signed_url_deterministic(
    c: Client,
    method: HttpMethod,
    endpoint: Seq<char>,
    m1: ParamMap,
    m2: ParamMap,
    ts: Seq<char>,
)
    requires
        m1.wf(),
        m2.wf(),
        m1.as_map() == m2.as_map(),
    ensures
        signed_url_chars(c.secret_chars(), method, endpoint, with_auth(m1@, c.api_key_chars(), ts))
            == signed_url_chars(
            c.secret_chars(),
            method,
            endpoint,
            with_auth(m2@, c.api_key_chars(), ts),
        ),
{
    crate::params::lemma_canonical_query_deterministic(m1, m2);
}

/// A signed request's parameter set always carries the four injected auth
/// parameters with their fixed values — for the empty caller parameter set
/// as for any other — and stays in canonical order.
pub proof fn lemma_auth_params_present(
    ps: Seq<(Seq<char>, Seq<char>)>,
    api_key: Seq<char>,
    ts: Seq<char>,
)
    requires
        sorted_keys(ps),
    ensures
        ({
            let qps = with_auth(ps, api_key, ts);
            let m = map_of(qps);
            &&& sorted_keys(qps)
            &&& m.dom().contains("AccessKeyId"@) && m["AccessKeyId"@] == api_key
            &&& m.dom().contains("SignatureMethod"@) && m["SignatureMethod"@] == "HmacSHA256"@
            &&& m.dom().contains("SignatureVersion"@) && m["SignatureVersion"@] == "2"@
            &&& m.dom().contains("Timestamp"@) && m["Timestamp"@] == ts
        }),
{
    reveal_strlit("AccessKeyId");
    reveal_strlit("SignatureMethod");
    reveal_strlit("SignatureVersion");
    reveal_strlit("Timestamp");
    let s1 = sorted_insert(ps, "AccessKeyId"@, api_key);
    lemma_sorted_insert_props(ps, "AccessKeyId"@, api_key);
    let s2 = sorted_insert(s1, "SignatureMethod"@, "HmacSHA256"@);
    lemma_sorted_insert_props(s1, "SignatureMethod"@, "HmacSHA256"@);
    let s3 = sorted_insert(s2, "SignatureVersion"@, "2"@);
    lemma_sorted_insert_props(s2, "SignatureVersion"@, "2"@);
    lemma_sorted_insert_props(s3, "Timestamp"@, ts);
    assert(("AccessKeyId"@).len() == 11);
    assert(("SignatureMethod"@).len() == 15);
    assert(("SignatureVersion"@).len() == 16);
    assert(("Timestamp"@).len() == 9);
}

} // verus!
