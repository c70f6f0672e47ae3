use simple_web_server::{build_response, decimal_digits, respond, route, Route};

#[test]
fn root_request_is_found() {
    let req = b"GET / HTTP/1.1\r\nHost: localhost\r\n\r\n";
    assert_eq!(route(req), Route::Found);
    assert_eq!(Route::Found.filename(), "hello.html");
    assert_eq!(Route::Found.status_line(), b"HTTP/1.1 200 OK".to_vec());
}

#[test]
fn other_request_is_not_found() {
    assert_eq!(route(b"GET /sleep HTTP/1.1\r\n"), Route::NotFound);
    assert_eq!(route(b"GET / HTTP/1.1"), Route::NotFound);
    assert_eq!(route(b""), Route::NotFound);
    assert_eq!(Route::NotFound.filename(), "404.html");
    assert_eq!(Route::NotFound.status_line(), b"HTTP/1.1 404 NOT FOUND".to_vec());
}

#[test]
fn full_buffer_with_root_line_is_found() {
    let mut buffer = [0u8; 1024];
    buffer[..16].copy_from_slice(b"GET / HTTP/1.1\r\n");
    assert_eq!(route(&buffer), Route::Found);
}

#[test]
fn decimal_digits_of_lengths() {
    assert_eq!(decimal_digits(0), b"0".to_vec());
    assert_eq!(decimal_digits(7), b"7".to_vec());
    assert_eq!(decimal_digits(1234), b"1234".to_vec());
    assert_eq!(decimal_digits(usize::MAX), usize::MAX.to_string().into_bytes());
}

#[test]
fn response_is_framed_with_length() {
    let r = build_response(b"HTTP/1.1 200 OK", b"<p>hi</p>");
    assert_eq!(r, b"HTTP/1.1 200 OK\r\nContent-Length: 9\r\n\r\n<p>hi</p>".to_vec());
}

#[test]
fn empty_body_has_zero_length() {
    let r = build_response(b"HTTP/1.1 404 NOT FOUND", b"");
    assert_eq!(r, b"HTTP/1.1 404 NOT FOUND\r\nContent-Length: 0\r\n\r\n".to_vec());
}

#[test]
fn matching_request_gets_page_response() {
    let body = b"<html>hello</html>";
    let r = respond(b"GET / HTTP/1.1\r\n", body);
    assert_eq!(r, b"HTTP/1.1 200 OK\r\nContent-Length: 18\r\n\r\n<html>hello</html>".to_vec());
}

#[test]
fn other_request_gets_not_found_response() {
    let body = b"<html>oops</html>";
    let r = respond(b"POST / HTTP/1.1\r\n", body);
    assert_eq!(r, b"HTTP/1.1 404 NOT FOUND\r\nContent-Length: 17\r\n\r\n<html>oops</html>".to_vec());
}
