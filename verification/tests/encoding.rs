use huobi_client::percent_encode;
use percent_encoding::utf8_percent_encode;
use percent_encoding::AsciiSet;
use percent_encoding::CONTROLS;

#[test]
fn encodes_plus_comma_space_and_reserved() {
    assert_eq!(percent_encode("a+b, c/d:e"), "a%2Bb%2C%20c%2Fd%3Ae");
    assert_eq!(percent_encode("x=y&z?@[\\]^|"), "x%3Dy&z%3F%40%5B%5C%5D%5E%7C");
    assert_eq!(percent_encode("{\"<>`}"), "%7B%22%3C%3E%60%7D");
}

#[test]
fn encodes_the_escape_character_itself() {
    assert_eq!(percent_encode("100%"), "100%25");
    assert_eq!(percent_encode("%20"), "%2520");
}

#[test]
fn encoding_is_applied_exactly_once() {
    let raw = "a+b, c";
    let once = percent_encode(raw);
    assert_eq!(once, "a%2Bb%2C%20c");
    let twice = percent_encode(&once);
    assert_ne!(twice, once, "re-encoding an encoded value must change it");
    assert_eq!(twice, "a%252Bb%252C%2520c");
}

#[test]
fn leaves_unreserved_characters_alone() {
    assert_eq!(percent_encode("AZaz09-_.~!$&'()*"), "AZaz09-_.~!$&'()*");
    assert_eq!(percent_encode(""), "");
}

#[test]
fn encodes_every_utf8_byte_of_non_ascii_text() {
    assert_eq!(percent_encode("café €"), "caf%C3%A9%20%E2%82%AC");
}

#[test]
fn encoded_output_holds_no_reserved_character() {
    let reserved = " \"#<>`?{}/:;=@[\\]^|+,";
    let encoded = percent_encode("a+b, c/d%25:e{}|\\^[]`<>\"#?@;= \u{7f}\u{1}ü");
    for c in encoded.chars() {
        assert!(c.is_ascii());
        assert!(c > '\u{1f}' && c != '\u{7f}');
        assert!(!reserved.contains(c), "reserved character {c:?} survived");
    }
}

#[test]
fn matches_an_independent_encoder() {
    let set: AsciiSet = CONTROLS
        .add(b' ')
        .add(b'"')
        .add(b'#')
        .add(b'<')
        .add(b'>')
        .add(b'`')
        .add(b'?')
        .add(b'{')
        .add(b'}')
        .add(b'/')
        .add(b':')
        .add(b';')
        .add(b'=')
        .add(b'@')
        .add(b'[')
        .add(b'\\')
        .add(b']')
        .add(b'^')
        .add(b'|')
        .add(b'+')
        .add(b',')
        .add(b'%');
    let set: &'static AsciiSet = Box::leak(Box::new(set));
    for s in [
        "a+b, c/d:e",
        "2021-01-01T00:00:00",
        "x=y&z?@[\\]^|",
        "{\"<>`}",
        "café €",
        "plain-text_0.9~",
        "tab\there",
        "100%",
        "%20 already encoded",
    ] {
        assert_eq!(
            percent_encode(s),
            utf8_percent_encode(s, set).to_string(),
            "mismatch on {s:?}"
        );
    }
}
