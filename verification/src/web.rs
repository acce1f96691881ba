//! What a tiny web server answers: which page a request line asks for, and
//! the text of the response that carries a page.

use vstd::prelude::*;
use vstd::string::{StringExecFns, StringSliceAdditionalSpecFns};

verus! {

/// The character that writes the digit `d`.
pub open spec fn digit_char(d: nat) -> char {
    if d == 0 {
        '0'
    } else if d == 1 {
        '1'
    } else if d == 2 {
        '2'
    } else if d == 3 {
        '3'
    } else if d == 4 {
        '4'
    } else if d == 5 {
        '5'
    } else if d == 6 {
        '6'
    } else if d == 7 {
        '7'
    } else if d == 8 {
        '8'
    } else {
        '9'
    }
}

/// `n` written in decimal digits, without leading zeros.
pub open spec fn decimal_digits(n: nat) -> Seq<char>
    decreases n,
{
    if n < 10 {
        seq![digit_char(n)]
    } else {
        decimal_digits(n / 10).push(digit_char(n % 10))
    }
}

/// The digit `d` as a string.
fn digit_str(d: usize) -> (text: &'static str)
    requires
        d < 10,
    ensures
        text@ == seq![digit_char(d as nat)],
{
    proof {
        reveal_strlit("0");
        reveal_strlit("1");
        reveal_strlit("2");
        reveal_strlit("3");
        reveal_strlit("4");
        reveal_strlit("5");
        reveal_strlit("6");
        reveal_strlit("7");
        reveal_strlit("8");
        reveal_strlit("9");
    }
    let text = if d == 0 {
        "0"
    } else if d == 1 {
        "1"
    } else if d == 2 {
        "2"
    } else if d == 3 {
        "3"
    } else if d == 4 {
        "4"
    } else if d == 5 {
        "5"
    } else if d == 6 {
        "6"
    } else if d == 7 {
        "7"
    } else if d == 8 {
        "8"
    } else {
        "9"
    };
    assert(text@ =~= seq![digit_char(d as nat)]);
    text
}

/// `n` in decimal digits.
pub fn decimal(n: usize) -> (text: String)
    ensures
        text@ == decimal_digits(n as nat),
    decreases n,
{
    if n < 10 {
        String::from_str(digit_str(n))
    } else {
        let text = decimal(n / 10).concat(digit_str(n % 10));
        assert(text@ =~= decimal_digits(n as nat));
        text
    }
}

/// The answer to a request: the status line to send, the file whose
/// contents follow it, and how long to wait before answering.
pub struct Route {
    pub status_line: &'static str,
    pub file_name: &'static str,
    pub delay_seconds: u64,
}

/// The request line is that of the front page.
pub open spec fn asks_for_front_page(request_line: Seq<char>) -> bool {
    request_line == "GET / HTTP/1.1"@
}

/// The request line is that of the page that is slow to come.
pub open spec fn asks_for_slow_page(request_line: Seq<char>) -> bool {
    request_line == "GET /sleep HTTP/1.1"@
}

/// Decides the answer to the request whose first line is `request_line`.
/// The front page is served at once and the slow page after five seconds,
/// both from the same file; any other request is answered with the
/// not-found page.
pub fn route(request_line: &str) -> (route: Route)
    ensures
        route.delay_seconds == (if asks_for_slow_page(request_line@) {
            5u64
        } else {
            0u64
        }),
        asks_for_front_page(request_line@) || asks_for_slow_page(request_line@) ==> {
            &&& route.status_line@ == "HTTP/1.1 200 OK"@
            &&& route.file_name@ == "hello.html"@
        },
        !asks_for_front_page(request_line@) && !asks_for_slow_page(request_line@) ==> {
            &&& route.status_line@ == "HTTP/1.1 404 NOT FOUND"@
            &&& route.file_name@ == "404.html"@
        },
{
    proof {
        reveal_strlit("GET / HTTP/1.1");
        reveal_strlit("GET /sleep HTTP/1.1");
        assert("GET / HTTP/1.1"@.len() != "GET /sleep HTTP/1.1"@.len());
    }
    let line = request_line.to_owned();
    if line == String::from_str("GET / HTTP/1.1") {
        Route { status_line: "HTTP/1.1 200 OK", file_name: "hello.html", delay_seconds: 0 }
    } else if line == String::from_str("GET /sleep HTTP/1.1") {
        Route { status_line: "HTTP/1.1 200 OK", file_name: "hello.html", delay_seconds: 5 }
    } else {
        Route { status_line: "HTTP/1.1 404 NOT FOUND", file_name: "404.html", delay_seconds: 0 }
    }
}

/// The text of a response: the status line, the length of the contents in
/// bytes as the only header, an empty line, and the contents.
pub open spec fn response_text(status_line: Seq<char>, contents: &str) -> Seq<char> {
    status_line + "\r\n"@ + "Content-Length: "@ + decimal_digits(contents.spec_bytes().len())
        + "\r\n"@ + "\r\n"@ + contents@
}

/// Builds the response that carries `contents` under `status_line`.
pub fn response(status_line: &str, contents: &str) -> (text: String)
    ensures
        text@ == response_text(status_line@, contents),
{
    let length = decimal(contents.as_bytes().len());
    let text = status_line.to_owned().concat("\r\n").concat("Content-Length: ").concat(
        length.as_str(),
    ).concat("\r\n").concat("\r\n").concat(contents);
    assert(text@ =~= response_text(status_line@, contents));
    text
}

} // verus!
