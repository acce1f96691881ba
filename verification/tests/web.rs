use rust_scratch_pad::web::{decimal, response, route};

#[test]
fn the_front_page_is_served_at_once() {
    let r = route("GET / HTTP/1.1");
    assert_eq!("HTTP/1.1 200 OK", r.status_line);
    assert_eq!("hello.html", r.file_name);
    assert_eq!(0, r.delay_seconds);
}

#[test]
fn the_slow_page_is_served_after_five_seconds() {
    let r = route("GET /sleep HTTP/1.1");
    assert_eq!("HTTP/1.1 200 OK", r.status_line);
    assert_eq!("hello.html", r.file_name);
    assert_eq!(5, r.delay_seconds);
}

#[test]
fn anything_else_is_not_found() {
    for line in ["GET /other HTTP/1.1", "", "GET / HTTP/1.0", "get / http/1.1", "GET / HTTP/1.1 "] {
        let r = route(line);
        assert_eq!("HTTP/1.1 404 NOT FOUND", r.status_line, "for {:?}", line);
        assert_eq!("404.html", r.file_name);
        assert_eq!(0, r.delay_seconds);
    }
}

#[test]
fn decimal_writes_numbers_without_leading_zeros() {
    assert_eq!("0", decimal(0));
    assert_eq!("7", decimal(7));
    assert_eq!("10", decimal(10));
    assert_eq!("1234567890", decimal(1234567890));
    assert_eq!(usize::MAX.to_string(), decimal(usize::MAX));
}

#[test]
fn a_response_carries_the_length_of_its_contents() {
    assert_eq!(
        "HTTP/1.1 200 OK\r\nContent-Length: 5\r\n\r\nhello",
        response("HTTP/1.1 200 OK", "hello")
    );
    assert_eq!(
        "HTTP/1.1 404 NOT FOUND\r\nContent-Length: 0\r\n\r\n",
        response("HTTP/1.1 404 NOT FOUND", "")
    );
}

#[test]
fn the_length_counts_bytes() {
    // one character, two bytes
    assert_eq!("S\r\nContent-Length: 2\r\n\r\n\u{e9}", response("S", "\u{e9}"));
    let contents = "x".repeat(123);
    assert_eq!(
        format!("S\r\nContent-Length: 123\r\n\r\n{}", contents),
        response("S", &contents)
    );
}
