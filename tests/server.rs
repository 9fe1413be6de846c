use banger::bang_storage::BangStorage;
use banger::server::{process_query, process_request, request_text, substitute_exec, take_chunk};

fn table() -> BangStorage {
    BangStorage {
        bangs: vec![
            ("ddg".to_string(), "https://duckduckgo.com/?q={}".to_string()),
            ("wiki".to_string(), "https://en.wikipedia.org/w/?search={}".to_string()),
        ],
        default: "ddg".to_string(),
    }
}

fn tokens(ts: &[&str]) -> Vec<String> {
    ts.iter().map(|t| t.to_string()).collect()
}

#[test]
fn resolve_bang_first() {
    assert_eq!(
        "https://duckduckgo.com/?q=hello+world",
        process_query(&table(), &tokens(&["!ddg", "hello", "world"]))
    );
}

#[test]
fn resolve_bang_after_term() {
    assert_eq!(
        "https://en.wikipedia.org/w/?search=hello",
        process_query(&table(), &tokens(&["hello", "!wiki"]))
    );
}

#[test]
fn resolve_bang_after_term_same_as_default() {
    assert_eq!(
        "https://duckduckgo.com/?q=hello",
        process_query(&table(), &tokens(&["hello", "!ddg"]))
    );
}

#[test]
fn resolve_only_first_bang_selects() {
    assert_eq!(
        "https://en.wikipedia.org/w/?search=%21ddg+x",
        process_query(&table(), &tokens(&["!wiki", "!ddg", "x"]))
    );
}

#[test]
fn resolve_unknown_bang_falls_back() {
    assert_eq!(
        "https://duckduckgo.com/?q=%21unknown+x",
        process_query(&table(), &tokens(&["!unknown", "x"]))
    );
}

#[test]
fn resolve_edge_tokens() {
    assert_eq!("https://duckduckgo.com/?q=", process_query(&table(), &tokens(&[])));
    assert_eq!(
        "https://duckduckgo.com/?q=%21+a%2Bb",
        process_query(&table(), &tokens(&["", "!", "a+b"]))
    );
    assert_eq!(
        "https://duckduckgo.com/?q=%D0%BF",
        process_query(&table(), &tokens(&["п"]))
    );
}

#[test]
fn substitute_every_marker() {
    assert_eq!("a-q-b-q", substitute_exec("a-{}-b-{}", "q"));
    assert_eq!("{q}", substitute_exec("{{}}", "q"));
    assert_eq!("no marker", substitute_exec("no marker", "q"));
}

#[test]
fn end_to_end_redirect() {
    assert_eq!(
        "HTTP/1.1 303 See Other\r\nLocation: https://duckduckgo.com/?q=hi\r\n\r\n",
        process_request(&table(), "GET /!ddg+hi HTTP/1.1\r\n\r\n")
    );
}

#[test]
fn end_to_end_errors() {
    assert_eq!(
        "HTTP/1.1 400 Bad Request\r\nContent-Type: text/plain\r\n\r\nMissing leading slash in target",
        process_request(&table(), "GET x HTTP/1.1\r\n\r\n")
    );
    assert_eq!(
        "HTTP/1.1 405 Method Not Allowed\r\nAllow: GET, HEAD\r\n\r\n",
        process_request(&table(), "POST /x\r\n\r\n")
    );
    assert_eq!(
        "HTTP/1.1 400 Bad Request\r\nContent-Type: text/plain\r\n\r\nMissing header-body split",
        process_request(&table(), "")
    );
}

#[test]
fn response_echoes_protocol() {
    assert_eq!(
        "HTTP/1.0 303 See Other\r\nLocation: https://en.wikipedia.org/w/?search=rust+lang\r\n\r\n",
        process_request(&table(), "GET /rust+!wiki+lang HTTP/1.0\r\nHost: x\r\n\r\n")
    );
    assert_eq!(
        "HTTP/1.1 400 Bad Request\r\nContent-Type: text/plain\r\n\r\nInvalid protocol",
        process_request(&table(), "GET /x FTP\r\n\r\n")
    );
    assert_eq!(
        "HTTP/2 405 Method Not Allowed\r\nAllow: GET, HEAD\r\n\r\n",
        process_request(&table(), "PUT /x HTTP/2\r\n\r\n")
    );
}

#[test]
fn request_bytes_to_text() {
    assert_eq!("GET / HTTP/1.1", request_text(b"GET / HTTP/1.1".to_vec()));
    assert_eq!("привіт", request_text("привіт".as_bytes().to_vec()));
    assert_eq!("", request_text(vec![0xFF, 0x41]));
}

#[test]
fn chunks_end_on_short_read() {
    let mut acc = Vec::new();
    let buf = [1u8, 2, 3, 4];
    assert!(!take_chunk(&mut acc, &buf, 4));
    assert!(take_chunk(&mut acc, &buf, 2));
    assert_eq!(vec![1, 2, 3, 4, 1, 2], acc);
    assert!(take_chunk(&mut acc, &buf, 0));
}
