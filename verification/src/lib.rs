//! A client library for a cryptocurrency exchange's signed REST API.
//!
//! The core is the request canonicalization and signing protocol:
//! deterministic parameter serialization, percent-encoding against the
//! exchange's accepted charset, an HMAC-SHA256 signature over a fixed
//! pre-sign string, and detection of the exchange's error envelope.

pub mod client;
pub mod encoding;
pub mod params;
pub mod response;
pub mod signing;
pub mod time;

pub use client::build_headers;
pub use client::APIKey;
pub use client::Client;
pub use client::HttpMethod;
pub use encoding::percent_encode;
pub use params::build_query_string;
pub use params::ParamMap;
pub use response::check_response;
pub use response::HuobiError;
pub use signing::sign_hmac_sha256_base64;
pub use time::get_timestamp;
