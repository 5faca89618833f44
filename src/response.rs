use vstd::prelude::*;
use vstd::string::*;
use vstd::utf8::encode_utf8;
use crate::grammar::{protocol_text, render_protocol, render_status, status_text};
use crate::grammar::{Protocol, StatusCode};
use crate::strmap::{insert_sorted, lemma_insert_sorted_commutes, Entry, StrMap};
use crate::text::{decimal, decimal_chars, string_of};

verus! {

/// The parts of a response, as mathematical values; headers in key order.
pub struct ResponseView {
    pub protocol: Protocol,
    pub status: StatusCode,
    pub headers: Seq<Entry>,
    pub body: Option<Seq<char>>,
}

/// The header name that serialisation gives the body's byte length under.
pub open spec fn content_length_key() -> Seq<char> {
    seq!['C', 'o', 'n', 't', 'e', 'n', 't', '-', 'L', 'e', 'n', 'g', 't', 'h']
}

/// A fresh response: HTTP/1.1, 200, no headers, no body.
pub open spec fn default_response() -> ResponseView {
    ResponseView {
        protocol: Protocol::Http1_1,
        status: StatusCode::Okay,
        headers: Seq::empty(),
        body: None,
    }
}

/// `v` with status `s`.
pub open spec fn with_status(v: ResponseView, s: StatusCode) -> ResponseView {
    ResponseView { status: s, ..v }
}

/// `v` with header `k` set to `x`.
pub open spec fn with_header(v: ResponseView, k: Seq<char>, x: Seq<char>) -> ResponseView {
    ResponseView { headers: insert_sorted(v.headers, k, x), ..v }
}

/// `v` with body `b`.
pub open spec fn with_body(v: ResponseView, b: Seq<char>) -> ResponseView {
    ResponseView { body: Some(b), ..v }
}

/// The headers that are sent: those of `v`, and with a body a
/// `Content-Length` of its length in UTF-8 bytes.
pub open spec fn sent_headers(v: ResponseView) -> Seq<Entry> {
    match v.body {
        Some(b) => insert_sorted(v.headers, content_length_key(), decimal(encode_utf8(b).len())),
        None => v.headers,
    }
}

/// Header lines `key: value` CRLF, in the order of `hs`.
pub open spec fn headers_text(hs: Seq<Entry>) -> Seq<char>
    decreases hs.len(),
{
    if hs.len() == 0 {
        Seq::empty()
    } else {
        headers_text(hs.drop_last()) + hs.last().0 + seq![':', ' '] + hs.last().1 + seq![
            '\r',
            '\n',
        ]
    }
}

/// The wire text of `v`: status line, header lines, a blank line, the
/// body (empty where there is none).
pub open spec fn serialised(v: ResponseView) -> Seq<char> {
    protocol_text(v.protocol) + seq![' '] + status_text(v.status) + seq!['\r', '\n']
        + headers_text(sent_headers(v)) + seq!['\r', '\n'] + match v.body {
        Some(b) => b,
        None => Seq::empty(),
    }
}

/// What serialising leaves of `v`: the sent headers, and no body.
pub open spec fn after_serialise(v: ResponseView) -> ResponseView {
    ResponseView { headers: sent_headers(v), body: None, ..v }
}

/// A response under construction.
#[derive(Debug)]
pub struct Response {
    protocol: Protocol,
    status_code: StatusCode,
    headers: StrMap,
    body: Option<String>,
}

impl View for Response {
    type V = ResponseView;

    closed spec fn view(&self) -> ResponseView {
        ResponseView {
            protocol: self.protocol,
            status: self.status_code,
            headers: self.headers.entries_view(),
            body: match self.body {
                Some(b) => Some(b@),
                None => None,
            },
        }
    }
}

impl Response {
    /// The header entries keep their keys in order.
    pub closed spec fn wf(&self) -> bool {
        self.headers.wf()
    }

    /// A response with protocol HTTP/1.1, status 200, no headers and no body.
    pub fn new() -> (r: Response)
        ensures
            r.wf(),
            r@ == default_response(),
    {
        Response {
            protocol: Protocol::Http1_1,
            status_code: StatusCode::Okay,
            headers: StrMap::new(),
            body: None,
        }
    }

    /// Sets the status code.
    pub fn set_status_code(self, status_code: StatusCode) -> (r: Response)
        requires
            self.wf(),
        ensures
            r.wf(),
            r@ == with_status(self@, status_code),
    {
        let mut r = self;
        r.status_code = status_code;
        r
    }

    /// Sets header `key` to `value`, replacing an earlier value of `key`.
    pub fn add_header(self, key: &str, value: &str) -> (r: Response)
        requires
            self.wf(),
        ensures
            r.wf(),
            r@ == with_header(self@, key@, value@),
    {
        let mut r = self;
        r.headers.insert(key.to_owned(), value.to_owned());
        r
    }

    /// Sets the body.
    pub fn set_body(self, body: &str) -> (r: Response)
        requires
            self.wf(),
        ensures
            r.wf(),
            r@ == with_body(self@, body@),
    {
        let mut r = self;
        r.body = Some(body.to_owned());
        r
    }

    /// Renders the response as wire text. With a body, first sets header
    /// `Content-Length` to its length in bytes; the body is taken out, so a
    /// second call sends none.
    pub fn serialise(&mut self) -> (r: String)
        requires
            old(self).wf(),
        ensures
            final(self).wf(),
            r@ == serialised(old(self)@),
            final(self)@ == after_serialise(old(self)@),
    {
        proof {
            reveal_strlit(" ");
            reveal_strlit("\r\n");
            reveal_strlit(": ");
            reveal_strlit("Content-Length");
        }
        let ghost v = self@;
        assert(": "@ =~= seq![':', ' ']);
        assert("\r\n"@ =~= seq!['\r', '\n']);
        assert(" "@ =~= seq![' ']);
        match &self.body {
            Some(b) => {
                let n = b.as_str().as_bytes().len();
                let len = string_of(decimal_chars(n).as_slice());
                let key = "Content-Length".to_owned();
                assert(key@ =~= content_length_key());
                self.headers.insert(key, len);
            },
            None => {},
        }
        let body = self.body.take();
        assert(self.headers.entries_view() == sent_headers(v));
        let mut out = String::new();
        out.append(render_protocol(self.protocol));
        out.append(" ");
        out.append(render_status(self.status_code));
        out.append("\r\n");
        let ghost start = out@;
        let ghost hs = self.headers.entries_view();
        let count = self.headers.len();
        let mut i: usize = 0;
        assert(hs.take(0) =~= Seq::<Entry>::empty());
        while i < count
            invariant
                self.wf(),
                hs == self.headers.entries_view(),
                count == hs.len(),
                i <= count,
                out@ == start + headers_text(hs.take(i as int)),
                ": "@ == seq![':', ' '],
                "\r\n"@ == seq!['\r', '\n'],
            decreases count - i,
        {
            let (k, x) = self.headers.entry(i);
            out.append(k.as_str());
            out.append(": ");
            out.append(x.as_str());
            out.append("\r\n");
            assert(hs.take(i + 1).drop_last() =~= hs.take(i as int));
            assert(hs.take(i + 1).last() == hs[i as int]);
            assert(out@ =~= start + headers_text(hs.take(i + 1)));
            i += 1;
        }
        assert(hs.take(count as int) =~= hs);
        out.append("\r\n");
        match body {
            Some(b) => {
                out.append(b.as_str());
            },
            None => {},
        }
        assert(out@ =~= serialised(v));
        out
    }
}

/// The builder calls commute: setting the status, setting the body and
/// adding headers of distinct keys give the same serialised text in
/// either order.
pub proof fn lemma_builders_commute(
    v: ResponseView,
    s: StatusCode,
    b: Seq<char>,
    k1: Seq<char>,
    x1: Seq<char>,
    k2: Seq<char>,
    x2: Seq<char>,
)
    requires
        k1 != k2,
    ensures
        serialised(with_status(with_body(v, b), s)) == serialised(with_body(with_status(v, s), b)),
        serialised(with_status(with_header(v, k1, x1), s)) == serialised(
            with_header(with_status(v, s), k1, x1),
        ),
        serialised(with_body(with_header(v, k1, x1), b)) == serialised(
            with_header(with_body(v, b), k1, x1),
        ),
        serialised(with_header(with_header(v, k1, x1), k2, x2)) == serialised(
            with_header(with_header(v, k2, x2), k1, x1),
        ),
{
    lemma_insert_sorted_commutes(v.headers, k1, x1, k2, x2);
    assert(with_status(with_body(v, b), s) == with_body(with_status(v, s), b));
    assert(with_status(with_header(v, k1, x1), s) == with_header(with_status(v, s), k1, x1));
    assert(with_body(with_header(v, k1, x1), b) == with_header(with_body(v, b), k1, x1));
    assert(with_header(with_header(v, k1, x1), k2, x2) == with_header(
        with_header(v, k2, x2),
        k1,
        x1,
    ));
}

/// A response without a body is sent with its own headers only, no
/// `Content-Length` added, and an empty body section after the blank line.
pub proof fn lemma_no_body_serialisation(v: ResponseView)
    requires
        v.body is None,
    ensures
        sent_headers(v) == v.headers,
        serialised(v) == protocol_text(v.protocol) + seq![' '] + status_text(v.status) + seq![
            '\r',
            '\n',
        ] + headers_text(v.headers) + seq!['\r', '\n'],
        after_serialise(v).headers == v.headers,
{
    assert(serialised(v) =~= protocol_text(v.protocol) + seq![' '] + status_text(v.status) + seq![
        '\r',
        '\n',
    ] + headers_text(v.headers) + seq!['\r', '\n']);
}

} // verus!
