use httop::extract::parse_key;
use httop::parse_file;
use httop::ParseError;
use httop::Request;
use httop::RequestMethod;

#[test]
fn test_parse_file() {
    let contents = "--method\nGET\n--\n--url\nhttps://hisamafahri-v1.web.val.run";
    assert_eq!(
        parse_file(Some(contents)),
        Ok(Request {
            method: RequestMethod::GET,
            url: String::from("https://hisamafahri-v1.web.val.run"),
        })
    );
}

#[test]
fn simple_get_request_parses() {
    let contents = "--method\nGET\n--\n--url\nhttps://example.com";
    let expected = Request {
        method: RequestMethod::GET,
        url: String::from("https://example.com"),
    };
    assert_eq!(parse_file(Some(contents)), Ok(expected));
}

#[test]
fn lowercase_method_is_recognized() {
    let contents = "--method\nget\n--\n--url\nhttps://example.com";
    let parsed = parse_file(Some(contents)).unwrap();
    assert_eq!(parsed.method, RequestMethod::GET);
    assert_eq!(parsed.url, "https://example.com");
}

#[test]
fn mixed_case_methods_are_recognized() {
    for (value, method) in [
        ("PoSt", RequestMethod::POST),
        ("put", RequestMethod::PUT),
        ("Patch", RequestMethod::PATCH),
        ("delete", RequestMethod::DELETE),
        ("hEAd", RequestMethod::HEAD),
        ("options", RequestMethod::OPTIONS),
    ] {
        let contents = format!("--method\n{}\n--\n--url\nhttps://example.com", value);
        let parsed = parse_file(Some(contents.as_str())).unwrap();
        assert_eq!(parsed.method, method);
    }
}

#[test]
fn unrecognized_method_fails() {
    let contents = "--method\nTRACE\n--\n--url\nhttps://example.com";
    assert_eq!(parse_file(Some(contents)), Err(ParseError::InvalidMethod));
}

#[test]
fn method_with_surrounding_garbage_fails() {
    let contents = "--method\nGET now\n--\n--url\nhttps://example.com";
    assert_eq!(parse_file(Some(contents)), Err(ParseError::InvalidMethod));
}

#[test]
fn empty_method_value_fails() {
    let contents = "--method\n--\n--url\nhttps://example.com";
    assert_eq!(parse_file(Some(contents)), Err(ParseError::InvalidMethod));
}

#[test]
fn missing_method_key_fails() {
    let contents = "--url\nhttps://example.com";
    assert_eq!(parse_file(Some(contents)), Err(ParseError::InvalidMethod));
}

#[test]
fn missing_method_terminator_fails() {
    let contents = "--method\nGET";
    assert_eq!(parse_file(Some(contents)), Err(ParseError::InvalidMethod));
}

#[test]
fn missing_url_key_fails() {
    let contents = "--method\nGET\n--";
    assert_eq!(parse_file(Some(contents)), Err(ParseError::InvalidUrl));
}

#[test]
fn unreadable_file_fails() {
    assert_eq!(parse_file(None), Err(ParseError::InvalidFilePath));
}

#[test]
fn comments_between_key_and_value_do_not_matter() {
    let plain = "--method\nGET\n--\n--url\nhttps://example.com";
    let commented = "# request\n--method\n# the method\nGET\n--\n--url\n# the target\nhttps://example.com";
    assert_eq!(parse_file(Some(commented)), parse_file(Some(plain)));
    assert_eq!(
        parse_file(Some(commented)),
        Ok(Request { method: RequestMethod::GET, url: String::from("https://example.com") })
    );
}

#[test]
fn url_is_stored_verbatim_after_trim() {
    let contents = "--method\nGET\n--\n--url\n  https://example.com/path?a=b&c=d  ";
    let parsed = parse_file(Some(contents)).unwrap();
    assert_eq!(parsed.url, "https://example.com/path?a=b&c=d");
}

#[test]
fn url_value_may_be_empty() {
    let contents = "--method\nGET\n--\n--url\n";
    let parsed = parse_file(Some(contents)).unwrap();
    assert_eq!(parsed.url, "");
}

#[test]
fn trailing_newline_is_trimmed_from_url() {
    let contents = "--method\nGET\n--\n--url\nhttps://example.com\n";
    let parsed = parse_file(Some(contents)).unwrap();
    assert_eq!(parsed.url, "https://example.com");
}

#[test]
fn url_key_may_come_first() {
    let contents = "--url\nhttps://example.com\n--\n--method\nGET";
    let expected = Request {
        method: RequestMethod::GET,
        url: String::from("https://example.com"),
    };
    assert_eq!(parse_file(Some(contents)), Ok(expected));
}

#[test]
fn first_terminator_ends_the_method_field() {
    let contents = "--method\nGET\n--extra\n--url\nhttps://example.com";
    let parsed = parse_file(Some(contents)).unwrap();
    assert_eq!(parsed.method, RequestMethod::GET);
}

#[test]
fn crlf_file_parses_like_lf_file() {
    let contents = "--method\r\nGET\r\n--\r\n--url\r\nhttps://example.com\r\n";
    let expected = Request {
        method: RequestMethod::GET,
        url: String::from("https://example.com"),
    };
    assert_eq!(parse_file(Some(contents)), Ok(expected));
}

#[test]
fn method_from_value_matches_the_recognized_set() {
    assert_eq!(RequestMethod::from_value("get"), Some(RequestMethod::GET));
    assert_eq!(RequestMethod::from_value("OPTIONS"), Some(RequestMethod::OPTIONS));
    assert_eq!(RequestMethod::from_value("GETT"), None);
    assert_eq!(RequestMethod::from_value(""), None);
    assert_eq!(RequestMethod::from_value("TRACE"), None);
}

#[test]
fn method_upper_casing_is_full_unicode() {
    // U+017F, the long s, upper-cases to an ordinary S.
    assert_eq!(RequestMethod::from_value("po\u{17f}t"), Some(RequestMethod::POST));
}

#[test]
fn method_from_upper_wants_the_exact_name() {
    assert_eq!(httop::request::method_from_upper("GET"), Some(RequestMethod::GET));
    assert_eq!(httop::request::method_from_upper("get"), None);
    assert_eq!(httop::request::method_from_upper("TRACE"), None);
}

#[test]
fn extractor_scans_to_terminator_when_key_is_first() {
    assert_eq!(parse_key("--key\nvalue\n--\nrest", "--key"), Some("value"));
    assert_eq!(parse_key("--key\nvalue", "--key"), None);
}

#[test]
fn extractor_takes_remainder_when_key_is_not_first() {
    assert_eq!(parse_key("lead\n--key\nvalue one  ", "--key"), Some("value one"));
    assert_eq!(parse_key("lead\n--key\nv\n--\nmore", "--key"), Some("v\n--\nmore"));
}

#[test]
fn extractor_fails_on_missing_key() {
    assert_eq!(parse_key("--method\nGET\n--", "--url"), None);
}

#[test]
fn request_equality_is_structural() {
    let a = Request { method: RequestMethod::PUT, url: String::from("u") };
    let b = Request { method: RequestMethod::PUT, url: String::from("u") };
    let c = Request { method: RequestMethod::PUT, url: String::from("v") };
    let d = Request { method: RequestMethod::POST, url: String::from("u") };
    assert_eq!(a, b);
    assert_ne!(a, c);
    assert_ne!(a, d);
}
