use banger::codec::{decode, encode};
use banger::response::{Response, StatusCode};

#[test]
fn encode_success() {
    assert_eq!(
        "abcd%D0%BF%D1%80%D0%B8%D0%B2%D1%96%D1%82%F0%9F%98%83%21%23%24%26%22%27%28%29%2A%2B%2C%2F%3A%3B%3D%3F%40%5B%5D".to_string(),
        encode("abcdпривіт😃!#$&\"'()*+,/:;=?@[]")
    );
}

#[test]
fn response_success() {
    let response = Response::new("PROTO", StatusCode::SeeOther)
        .header("Header1", "Value1")
        .header("Header2", "Value2")
        .body("BODY")
        .make();

    const TEMPLATE: &str = "PROTO 303 See Other\r\nHeader{}: Value{}\r\nHeader{}: Value{}\r\n\r\nBODY";
    assert!(
        TEMPLATE.replacen("{}", "1", 2).replacen("{}", "2", 2) == response
            || TEMPLATE.replacen("{}", "2", 2).replacen("{}", "1", 2) == response
    );
}

#[test]
fn response_bad_request() {
    let response = Response::new("PROTO", StatusCode::BadRequest)
        .body("Error description")
        .make();
    assert_eq!("PROTO 400 Bad Request\r\n\r\nError description", response);
}

#[test]
fn response_method_not_allowed() {
    let response = Response::new("PROTO", StatusCode::MethodNotAllowed)
        .header("Allow", "Methods")
        .make();
    assert_eq!("PROTO 405 Method Not Allowed\r\nAllow: Methods\r\n\r\n", response);
}

#[test]
fn header_set_twice_keeps_last_value() {
    let response = Response::new("HTTP/1.1", StatusCode::SeeOther)
        .header("Location", "a")
        .header("Location", "b")
        .make();
    assert_eq!("HTTP/1.1 303 See Other\r\nLocation: b\r\n\r\n", response);
}

#[test]
fn status_messages() {
    assert_eq!("303 See Other", StatusCode::SeeOther.msg());
    assert_eq!("400 Bad Request", StatusCode::BadRequest.msg());
    assert_eq!("405 Method Not Allowed", StatusCode::MethodNotAllowed.msg());
}

#[test]
fn encode_plain_and_special() {
    assert_eq!("hello world", encode("hello world"));
    assert_eq!("%21ddg", encode("!ddg"));
    assert_eq!("a%2Bb", encode("a+b"));
    assert_eq!("100%", encode("100%"));
    assert_eq!("", encode(""));
    assert_eq!("%C3%A9", encode("é"));
}

#[test]
fn encode_then_decode() {
    // special characters and characters above ASCII come back
    assert_eq!(vec!["a!b+c/é😃"], decode(&encode("a!b+c/é😃")).unwrap());
    // a `%` followed by hex digits does not
    assert_eq!(vec!["A"], decode(&encode("%41")).unwrap());
    assert_eq!(Vec::<String>::new(), decode(&encode("")).unwrap());
}
