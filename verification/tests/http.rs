use omfiles::backends::http::{HttpBackend, RangeReply};
use omfiles::decimal::{append_decimal, parse_decimal};
use omfiles::errors::OmFilesError;

fn generic(text: &str) -> OmFilesError {
    OmFilesError::GenericError(text.to_string())
}

fn written(value: u64) -> String {
    let mut text = String::new();
    append_decimal(&mut text, value);
    text
}

#[test]
fn numbers_are_written_in_decimal() {
    assert_eq!(written(0), "0");
    assert_eq!(written(9), "9");
    assert_eq!(written(10), "10");
    assert_eq!(written(1024), "1024");
    assert_eq!(written(u64::MAX), "18446744073709551615");
    let mut text = "n=".to_string();
    append_decimal(&mut text, 907);
    assert_eq!(text, "n=907");
}

#[test]
fn numbers_are_read_from_decimal() {
    let texts = [
        "0", "7", "007", "+12", "18446744073709551615", "18446744073709551616", "", "+", "-1", " 1",
        "1 ", "1.5", "abc", "++1", "99999999999999999999999", "+0", "1_000", "0x10",
    ];
    for text in texts {
        assert_eq!(parse_decimal(text.as_bytes()), text.parse::<u64>().ok());
    }
    assert_eq!(parse_decimal(&[0x31, 0xff]), None);
}

#[test]
fn written_numbers_are_read_back() {
    for value in [0, 1, 9, 10, 99, 100, 12345, u64::MAX - 1, u64::MAX] {
        assert_eq!(parse_decimal(written(value).as_bytes()), Some(value));
    }
}

#[test]
fn the_file_size_is_the_content_length() {
    let url = "https://example.com/a.om".to_string();
    let backend = HttpBackend::new(url, Ok(Some(b"170123456".to_vec()))).unwrap();
    assert_eq!(backend.count_async(), 170123456);
    assert_eq!(backend.url(), "https://example.com/a.om");
    assert_eq!(HttpBackend::content_length(Ok(Some(b"+5".to_vec()))), Ok(5));
}

#[test]
fn a_missing_or_odd_content_length_is_refused() {
    let missing = "HTTP response is missing a numeric Content-Length header";
    for header in [None, Some(b"".to_vec()), Some(b"many".to_vec()), Some(vec![0x80])] {
        let size = HttpBackend::content_length(Ok(header));
        assert_eq!(size, Err(generic(missing)));
    }
    assert!(HttpBackend::new("u".to_string(), Ok(None)).is_err());
}

#[test]
fn a_failed_head_request_is_reported() {
    let failed = HttpBackend::new("u".to_string(), Err("timeout".to_string()));
    assert!(matches!(failed, Err(error) if error == generic("HTTP HEAD request failed: timeout")));
}

#[test]
fn ranges_name_their_first_and_last_byte() {
    assert_eq!(HttpBackend::range_header(0, 24), "bytes=0-23");
    assert_eq!(HttpBackend::range_header(100, 1), "bytes=100-100");
    assert_eq!(HttpBackend::range_header(5, 0), "bytes=5-4");
    assert_eq!(
        HttpBackend::range_header(u64::MAX - 1, 1),
        "bytes=18446744073709551614-18446744073709551614"
    );
}

#[test]
fn the_body_is_handed_on_as_it_came() {
    assert_eq!(HttpBackend::get_bytes(RangeReply::Body(vec![1, 2, 3])), Ok(vec![1, 2, 3]));
    assert_eq!(
        HttpBackend::get_bytes(RangeReply::RequestFailed("404".to_string())),
        Err(generic("HTTP GET request failed: 404"))
    );
    assert_eq!(
        HttpBackend::get_bytes(RangeReply::BodyFailed("reset".to_string())),
        Err(generic("Failed to read HTTP response body: reset"))
    );
}
