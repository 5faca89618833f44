use vstd::prelude::*;
use crate::text::{chars_of, eq_ignore_case, matches_ignore_case};

verus! {

/// What can go wrong when a request is decoded or a token is parsed.
#[derive(Debug, Clone, Copy, PartialEq, Eq, Structural)]
pub enum Error {
    /// The method token is not one of the known methods.
    InvalidMethod,
    /// The protocol token is not one of the known protocol versions.
    InvalidProtocol,
    /// The buffer is not valid UTF-8 text.
    InvalidEncoding,
    /// The buffer holds no blank line (CRLF CRLF) ending the header block.
    MissingHeaderEnd,
    /// The request line is absent or is not three space-separated tokens.
    MalformedRequestLine,
    /// A header line has no `:` separator.
    MalformedHeader,
    /// A query segment has no `=` separator.
    MalformedQuery,
}

/// The status codes a response can carry.
#[derive(Debug, Clone, Copy, PartialEq, Eq, Structural)]
pub enum StatusCode {
    Okay,
    NoContent,
    NotFound,
}

/// The protocol versions of HTTP/1.x framing.
#[derive(Debug, Clone, Copy, PartialEq, Eq, Structural)]
pub enum Protocol {
    Http1_1,
    Http1_0,
    Http0_9,
}

/// The request methods this grammar knows.
#[derive(Debug, Clone, Copy, PartialEq, Eq, Structural)]
pub enum Method {
    Connect,
    Get,
    Post,
}

/// Canonical wire token of a protocol version.
pub open spec fn protocol_text(p: Protocol) -> Seq<char> {
    match p {
        Protocol::Http1_1 => seq!['H', 'T', 'T', 'P', '/', '1', '.', '1'],
        Protocol::Http1_0 => seq!['H', 'T', 'T', 'P', '/', '1', '.', '0'],
        Protocol::Http0_9 => seq!['H', 'T', 'T', 'P', '/', '0', '.', '9'],
    }
}

/// Status line text of a status code: the code and its reason phrase.
pub open spec fn status_text(s: StatusCode) -> Seq<char> {
    match s {
        StatusCode::Okay => seq!['2', '0', '0', ' ', 'O', 'k', 'a', 'y'],
        StatusCode::NoContent => seq![
            '2', '0', '4', ' ', 'N', 'o', ' ', 'C', 'o', 'n', 't', 'e', 'n', 't',
        ],
        StatusCode::NotFound => seq![
            '4', '0', '4', ' ', 'N', 'o', 't', ' ', 'F', 'o', 'u', 'n', 'd',
        ],
    }
}

/// The protocol version that a token names, ignoring ASCII case.
pub open spec fn protocol_of(s: Seq<char>) -> Option<Protocol> {
    if eq_ignore_case(s, seq!['h', 't', 't', 'p', '/', '1', '.', '1']) {
        Some(Protocol::Http1_1)
    } else if eq_ignore_case(s, seq!['h', 't', 't', 'p', '/', '1', '.', '0']) {
        Some(Protocol::Http1_0)
    } else if eq_ignore_case(s, seq!['h', 't', 't', 'p', '/', '0', '.', '9']) {
        Some(Protocol::Http0_9)
    } else {
        None
    }
}

/// The method that a token names, ignoring ASCII case.
pub open spec fn method_of(s: Seq<char>) -> Option<Method> {
    if eq_ignore_case(s, seq!['c', 'o', 'n', 'n', 'e', 'c', 't']) {
        Some(Method::Connect)
    } else if eq_ignore_case(s, seq!['g', 'e', 't']) {
        Some(Method::Get)
    } else if eq_ignore_case(s, seq!['p', 'o', 's', 't']) {
        Some(Method::Post)
    } else {
        None
    }
}

/// Renders a protocol version as its canonical token, such as `HTTP/1.1`.
pub fn render_protocol(p: Protocol) -> (r: &'static str)
    ensures
        r@ == protocol_text(p),
{
    match p {
        Protocol::Http1_1 => {
            proof {
                reveal_strlit("HTTP/1.1");
            }
            "HTTP/1.1"
        },
        Protocol::Http1_0 => {
            proof {
                reveal_strlit("HTTP/1.0");
            }
            "HTTP/1.0"
        },
        Protocol::Http0_9 => {
            proof {
                reveal_strlit("HTTP/0.9");
            }
            "HTTP/0.9"
        },
    }
}

/// Renders a status code as `"<code> <reason phrase>"`.
pub fn render_status(s: StatusCode) -> (r: &'static str)
    ensures
        r@ == status_text(s),
{
    match s {
        StatusCode::Okay => {
            proof {
                reveal_strlit("200 Okay");
            }
            "200 Okay"
        },
        StatusCode::NoContent => {
            proof {
                reveal_strlit("204 No Content");
            }
            "204 No Content"
        },
        StatusCode::NotFound => {
            proof {
                reveal_strlit("404 Not Found");
            }
            "404 Not Found"
        },
    }
}

/// Protocol version named by a token held as characters.
pub(crate) fn protocol_of_chars(s: &Vec<char>) -> (r: Result<Protocol, Error>)
    ensures
        r == (match protocol_of(s@) {
            Some(p) => Ok(p),
            None => Err(Error::InvalidProtocol),
        }),
{
    proof {
        reveal_strlit("http/1.1");
        reveal_strlit("http/1.0");
        reveal_strlit("http/0.9");
    }
    if matches_ignore_case(s, "http/1.1") {
        assert("http/1.1"@ =~= seq!['h', 't', 't', 'p', '/', '1', '.', '1']);
        Ok(Protocol::Http1_1)
    } else if matches_ignore_case(s, "http/1.0") {
        assert("http/1.1"@ =~= seq!['h', 't', 't', 'p', '/', '1', '.', '1']);
        assert("http/1.0"@ =~= seq!['h', 't', 't', 'p', '/', '1', '.', '0']);
        Ok(Protocol::Http1_0)
    } else if matches_ignore_case(s, "http/0.9") {
        assert("http/1.1"@ =~= seq!['h', 't', 't', 'p', '/', '1', '.', '1']);
        assert("http/1.0"@ =~= seq!['h', 't', 't', 'p', '/', '1', '.', '0']);
        assert("http/0.9"@ =~= seq!['h', 't', 't', 'p', '/', '0', '.', '9']);
        Ok(Protocol::Http0_9)
    } else {
        assert("http/1.1"@ =~= seq!['h', 't', 't', 'p', '/', '1', '.', '1']);
        assert("http/1.0"@ =~= seq!['h', 't', 't', 'p', '/', '1', '.', '0']);
        assert("http/0.9"@ =~= seq!['h', 't', 't', 'p', '/', '0', '.', '9']);
        Err(Error::InvalidProtocol)
    }
}

/// Method named by a token held as characters.
pub(crate) fn method_of_chars(s: &Vec<char>) -> (r: Result<Method, Error>)
    ensures
        r == (match method_of(s@) {
            Some(m) => Ok(m),
            None => Err(Error::InvalidMethod),
        }),
{
    proof {
        reveal_strlit("connect");
        reveal_strlit("get");
        reveal_strlit("post");
    }
    assert("connect"@ =~= seq!['c', 'o', 'n', 'n', 'e', 'c', 't']);
    assert("get"@ =~= seq!['g', 'e', 't']);
    assert("post"@ =~= seq!['p', 'o', 's', 't']);
    if matches_ignore_case(s, "connect") {
        Ok(Method::Connect)
    } else if matches_ignore_case(s, "get") {
        Ok(Method::Get)
    } else if matches_ignore_case(s, "post") {
        Ok(Method::Post)
    } else {
        Err(Error::InvalidMethod)
    }
}

/// Parses a protocol token, ignoring ASCII case; any other token is
/// `InvalidProtocol`.
pub fn parse_protocol(token: &str) -> (r: Result<Protocol, Error>)
    ensures
        r == (match protocol_of(token@) {
            Some(p) => Ok(p),
            None => Err(Error::InvalidProtocol),
        }),
{
    let cs = chars_of(token);
    protocol_of_chars(&cs)
}

/// Parses a method token, ignoring ASCII case; any other token is
/// `InvalidMethod`.
pub fn parse_method(token: &str) -> (r: Result<Method, Error>)
    ensures
        r == (match method_of(token@) {
            Some(m) => Ok(m),
            None => Err(Error::InvalidMethod),
        }),
{
    let cs = chars_of(token);
    method_of_chars(&cs)
}

/// Parsing the rendered token of a protocol version gives that version back.
pub proof fn lemma_protocol_round_trip(p: Protocol)
    ensures
        protocol_of(protocol_text(p)) == Some(p),
{
    let t = protocol_text(p);
    let a = seq!['h', 't', 't', 'p', '/', '1', '.', '1'];
    let b = seq!['h', 't', 't', 'p', '/', '1', '.', '0'];
    let c = seq!['h', 't', 't', 'p', '/', '0', '.', '9'];
    match p {
        Protocol::Http1_1 => {
            assert(eq_ignore_case(t, a));
        },
        Protocol::Http1_0 => {
            assert(!eq_ignore_case(t, a)) by {
                assert(t[7] == '0' && a[7] == '1');
            }
            assert(eq_ignore_case(t, b));
        },
        Protocol::Http0_9 => {
            assert(!eq_ignore_case(t, a)) by {
                assert(t[5] == '0' && a[5] == '1');
            }
            assert(!eq_ignore_case(t, b)) by {
                assert(t[5] == '0' && b[5] == '1');
            }
            assert(eq_ignore_case(t, c));
        },
    }
}

} // verus!
