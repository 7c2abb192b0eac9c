use libax::http::http_get_request;

#[test]
fn get_request_for_host() {
    assert_eq!(http_get_request("ident.me"), "GET / HTTP/1.1\r\nHost: ident.me\r\nAccept: */*\r\n\r\n");
    assert_eq!(http_get_request(""), "GET / HTTP/1.1\r\nHost: \r\nAccept: */*\r\n\r\n");
}
