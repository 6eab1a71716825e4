use huobi_client::get_timestamp;
use huobi_client::time::format_timestamp;
use huobi_client::time::DateParts;

#[test]
fn known_instant_formats_exactly() {
    let p = DateParts { year: 2021, month: 1, day: 1, hour: 0, minute: 0, second: 0 };
    assert_eq!(format_timestamp(p), "2021-01-01T00:00:00");
}

#[test]
fn fields_are_zero_padded_to_their_width() {
    let p = DateParts { year: 987, month: 12, day: 31, hour: 23, minute: 59, second: 59 };
    assert_eq!(format_timestamp(p), "0987-12-31T23:59:59");
    let p = DateParts { year: 2024, month: 6, day: 7, hour: 8, minute: 9, second: 5 };
    assert_eq!(format_timestamp(p), "2024-06-07T08:09:05");
}

#[test]
fn current_timestamp_has_the_wire_shape() {
    let ts = get_timestamp();
    let bytes = ts.as_bytes();
    assert_eq!(bytes.len(), 19);
    assert_eq!(bytes[4], b'-');
    assert_eq!(bytes[7], b'-');
    assert_eq!(bytes[10], b'T');
    assert_eq!(bytes[13], b':');
    assert_eq!(bytes[16], b':');
    for i in [0, 1, 2, 3, 5, 6, 8, 9, 11, 12, 14, 15, 17, 18] {
        assert!(bytes[i].is_ascii_digit());
    }
}
