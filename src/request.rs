use vstd::prelude::*;
use vstd::utf8::{decode_utf8, valid_utf8};
use crate::grammar::{method_of, method_of_chars, protocol_of, protocol_of_chars};
use crate::grammar::{Error, Method, Protocol};
use crate::strmap::{Entry, StrMap};
use crate::text::{blank_line_from, chars_of, copy_range, find_char, index_of, index_of_blank_line};
use crate::text::{lines, lower_of, lowercase, parse_usize, parse_usize_chars, split_chars};
use crate::text::{split_lines, split_on, string_of, text_of, trim, trim_chars};
use crate::text::{trim_end_slashes, trim_slashes, views_are};

verus! {

/// The parts of a decoded request, as mathematical values.
pub struct RequestView {
    pub protocol: Protocol,
    pub method: Method,
    pub path: Seq<char>,
    pub query: Option<Map<Seq<char>, Seq<char>>>,
    pub headers: Map<Seq<char>, Seq<char>>,
    pub body: Seq<char>,
}

/// A query segment `key=value`, cut at its first `=`.
pub open spec fn query_entry(p: Seq<char>) -> Option<Entry> {
    match find_char(p, '=') {
        Some(i) => Some((p.take(i), p.skip(i + 1))),
        None => None,
    }
}

/// `m` with the query segments `ps` added in order; none if a segment has
/// no `=`.
pub open spec fn query_fold(ps: Seq<Seq<char>>, m: Map<Seq<char>, Seq<char>>) -> Option<
    Map<Seq<char>, Seq<char>>,
>
    decreases ps.len(),
{
    if ps.len() == 0 {
        Some(m)
    } else {
        match query_entry(ps[0]) {
            Some(e) => query_fold(ps.drop_first(), m.insert(e.0, e.1)),
            None => None,
        }
    }
}

/// The query mapping of a query string: `&`-separated segments, a later
/// duplicate key winning.
pub open spec fn query_of(q: Seq<char>) -> Option<Map<Seq<char>, Seq<char>>> {
    query_fold(split_on(q, '&'), Map::empty())
}

/// A header line cut at its first `:`: the trimmed, lower-cased name and
/// the trimmed value.
pub open spec fn header_entry(l: Seq<char>) -> Option<Entry> {
    match find_char(l, ':') {
        Some(i) => Some((lower_of(trim(l.take(i))), trim(l.skip(i + 1)))),
        None => None,
    }
}

/// `m` with the header lines `ls` added in order; none if a line has no
/// `:`.
pub open spec fn header_fold(ls: Seq<Seq<char>>, m: Map<Seq<char>, Seq<char>>) -> Option<
    Map<Seq<char>, Seq<char>>,
>
    decreases ls.len(),
{
    if ls.len() == 0 {
        Some(m)
    } else {
        match header_entry(ls[0]) {
            Some(e) => header_fold(ls.drop_first(), m.insert(e.0, e.1)),
            None => None,
        }
    }
}

/// The request target without its query string.
pub open spec fn target_path(t: Seq<char>) -> Seq<char> {
    match find_char(t, '?') {
        Some(i) => t.take(i),
        None => t,
    }
}

/// The query string of a request target, if it holds a `?`.
pub open spec fn target_query(t: Seq<char>) -> Option<Seq<char>> {
    match find_char(t, '?') {
        Some(i) => Some(t.skip(i + 1)),
        None => None,
    }
}

/// Decodes the request line `line`, the header lines `hs` and the body.
pub open spec fn decode_parts(line: Seq<char>, hs: Seq<Seq<char>>, body: Seq<char>) -> Result<
    RequestView,
    Error,
> {
    let toks = split_on(line, ' ');
    if toks.len() != 3 {
        Err(Error::MalformedRequestLine)
    } else if method_of(toks[0]) is None {
        Err(Error::InvalidMethod)
    } else if target_query(toks[1]) is Some && query_of(target_query(toks[1])->0) is None {
        Err(Error::MalformedQuery)
    } else if protocol_of(toks[2]) is None {
        Err(Error::InvalidProtocol)
    } else if header_fold(hs, Map::empty()) is None {
        Err(Error::MalformedHeader)
    } else {
        Ok(
            RequestView {
                protocol: protocol_of(toks[2])->0,
                method: method_of(toks[0])->0,
                path: trim_end_slashes(target_path(toks[1])),
                query: match target_query(toks[1]) {
                    Some(q) => query_of(q),
                    None => None,
                },
                headers: header_fold(hs, Map::empty())->0,
                body,
            },
        )
    }
}

/// Decodes request text: the header block ends at the first CRLF CRLF and
/// the body is all that follows it.
pub open spec fn decode_text(s: Seq<char>) -> Result<RequestView, Error> {
    match blank_line_from(s, 0) {
        None => Err(Error::MissingHeaderEnd),
        Some(e) => {
            let ls = lines(s.take(e));
            if ls.len() == 0 {
                Err(Error::MalformedRequestLine)
            } else {
                decode_parts(ls[0], ls.drop_first(), s.skip(e + 4))
            }
        },
    }
}

/// Decodes a request from raw bytes, which must be UTF-8 text.
pub open spec fn decode(buf: Seq<u8>) -> Result<RequestView, Error> {
    if valid_utf8(buf) {
        decode_text(decode_utf8(buf))
    } else {
        Err(Error::InvalidEncoding)
    }
}

/// The name of the header that gives the body's length.
pub open spec fn content_length_name() -> Seq<char> {
    seq!['c', 'o', 'n', 't', 'e', 'n', 't', '-', 'l', 'e', 'n', 'g', 't', 'h']
}

/// The body length that the headers announce: the `content-length` value
/// where it reads as a `usize`, else 0.
pub open spec fn content_length_of(h: Map<Seq<char>, Seq<char>>) -> nat {
    if h.contains_key(content_length_name()) && parse_usize(h[content_length_name()]) is Some {
        parse_usize(h[content_length_name()])->0
    } else {
        0
    }
}

/// A decoded HTTP request.
#[derive(Debug)]
pub struct Request {
    protocol: Protocol,
    method: Method,
    path: String,
    headers: StrMap,
    body: String,
    query: Option<StrMap>,
}

impl View for Request {
    type V = RequestView;

    closed spec fn view(&self) -> RequestView {
        RequestView {
            protocol: self.protocol,
            method: self.method,
            path: self.path@,
            query: match self.query {
                Some(q) => Some(q@),
                None => None,
            },
            headers: self.headers@,
            body: self.body@,
        }
    }
}

/// Adds the query segments of `ps` to `m`.
fn fill_query(ps: &Vec<Vec<char>>, m: &mut StrMap, Ghost(t): Ghost<Seq<Seq<char>>>) -> (r: bool)
    requires
        views_are(ps@, t),
        old(m).wf(),
    ensures
        final(m).wf(),
        r == (query_fold(t, old(m)@) is Some),
        r ==> query_fold(t, old(m)@) == Some(final(m)@),
{
    let mut j: usize = 0;
    assert(t.skip(0) =~= t);
    while j < ps.len()
        invariant
            views_are(ps@, t),
            j <= t.len(),
            m.wf(),
            query_fold(t, old(m)@) == query_fold(t.skip(j as int), m@),
        decreases t.len() - j,
    {
        let p = &ps[j];
        assert(t.skip(j as int)[0] == p@);
        assert(t.skip(j as int).drop_first() =~= t.skip(j + 1));
        match index_of(p, '=') {
            Some(i) => {
                let k = string_of(copy_range(p, 0, i).as_slice());
                let n = p.len();
                let v = string_of(copy_range(p, i + 1, n).as_slice());
                assert(k@ =~= p@.take(i as int));
                assert(v@ =~= p@.skip(i + 1));
                m.insert(k, v);
            },
            None => {
                return false;
            },
        }
        j += 1;
    }
    assert(t.skip(j as int).len() == 0);
    true
}

/// Adds the header lines of `ls` from index 1 on to `m`.
fn fill_headers(ls: &Vec<Vec<char>>, m: &mut StrMap, Ghost(t): Ghost<Seq<Seq<char>>>) -> (r: bool)
    requires
        views_are(ls@, t),
        t.len() >= 1,
        old(m).wf(),
    ensures
        final(m).wf(),
        r == (header_fold(t.drop_first(), old(m)@) is Some),
        r ==> header_fold(t.drop_first(), old(m)@) == Some(final(m)@),
{
    let mut j: usize = 1;
    assert(t.skip(1) =~= t.drop_first());
    while j < ls.len()
        invariant
            views_are(ls@, t),
            1 <= j <= t.len(),
            m.wf(),
            header_fold(t.drop_first(), old(m)@) == header_fold(t.skip(j as int), m@),
        decreases t.len() - j,
    {
        let l = &ls[j];
        assert(t.skip(j as int)[0] == l@);
        assert(t.skip(j as int).drop_first() =~= t.skip(j + 1));
        match index_of(l, ':') {
            Some(i) => {
                let name = string_of(trim_chars(&copy_range(l, 0, i)).as_slice());
                let k = lowercase(name.as_str());
                let n = l.len();
                let v = string_of(trim_chars(&copy_range(l, i + 1, n)).as_slice());
                assert(l@.take(i as int) =~= l@.subrange(0, i as int));
                assert(l@.skip(i + 1) =~= l@.subrange(i + 1, l@.len() as int));
                m.insert(k, v);
            },
            None => {
                return false;
            },
        }
        j += 1;
    }
    assert(t.skip(j as int).len() == 0);
    true
}

impl Request {
    /// Both mappings keep their keys in order.
    pub closed spec fn wf(&self) -> bool {
        self.headers.wf() && (self.query is Some ==> self.query->0.wf())
    }

    /// Decodes a request from a raw buffer. Fails, with the error that
    /// `decode` gives, where the buffer is not UTF-8 text, holds no CRLF
    /// CRLF, has a request line that is not three space-separated tokens, an
    /// unknown method or protocol, a query segment without `=` or a header
    /// line without `:`.
    pub fn from_bytes(buf: &[u8]) -> (r: Result<Request, Error>)
        ensures
            match r {
                Ok(req) => req.wf() && decode(buf@) == Ok::<RequestView, Error>(req@),
                Err(e) => decode(buf@) == Err::<RequestView, Error>(e),
            },
    {
        let text = match text_of(buf) {
            Some(t) => t,
            None => {
                return Err(Error::InvalidEncoding);
            },
        };
        let s = chars_of(text);
        let e = match index_of_blank_line(&s) {
            Some(e) => e,
            None => {
                return Err(Error::MissingHeaderEnd);
            },
        };
        let head = copy_range(&s, 0, e);
        let n = s.len();
        let body = string_of(copy_range(&s, e + 4, n).as_slice());
        assert(head@ =~= s@.take(e as int));
        assert(body@ =~= s@.skip(e + 4));
        let ls = split_lines(&head);
        let ghost lv = lines(head@);
        if ls.len() == 0 {
            return Err(Error::MalformedRequestLine);
        }
        let toks = split_chars(&ls[0], ' ');
        if toks.len() != 3 {
            return Err(Error::MalformedRequestLine);
        }
        let method = match method_of_chars(&toks[0]) {
            Ok(m) => m,
            Err(err) => {
                return Err(err);
            },
        };
        let target = &toks[1];
        let (path, query) = match index_of(target, '?') {
            Some(i) => {
                let p = copy_range(target, 0, i);
                let q = copy_range(target, i + 1, target.len());
                assert(p@ =~= target@.take(i as int));
                assert(q@ =~= target@.skip(i + 1));
                let ps = split_chars(&q, '&');
                let mut qm = StrMap::new();
                if !fill_query(&ps, &mut qm, Ghost(split_on(q@, '&'))) {
                    return Err(Error::MalformedQuery);
                }
                (p, Some(qm))
            },
            None => (copy_range(target, 0, target.len()), None),
        };
        assert(path@ =~= target_path(target@));
        let path = string_of(trim_slashes(&path).as_slice());
        let protocol = match protocol_of_chars(&toks[2]) {
            Ok(p) => p,
            Err(err) => {
                return Err(err);
            },
        };
        let mut headers = StrMap::new();
        if !fill_headers(&ls, &mut headers, Ghost(lv)) {
            return Err(Error::MalformedHeader);
        }
        let req = Request { protocol, method, path, headers, body, query };
        Ok(req)
    }

    /// The protocol version of the request line.
    pub fn protocol(&self) -> (r: &Protocol)
        ensures
            *r == self@.protocol,
    {
        &self.protocol
    }

    /// The method of the request line.
    pub fn method(&self) -> (r: &Method)
        ensures
            *r == self@.method,
    {
        &self.method
    }

    /// The path, without its query string and trailing slashes.
    pub fn path(&self) -> (r: &str)
        ensures
            r@ == self@.path,
    {
        self.path.as_str()
    }

    /// The query mapping, present only if the target held a `?`.
    pub fn query(&self) -> (r: &Option<StrMap>)
        requires
            self.wf(),
        ensures
            r is Some == self@.query is Some,
            r is Some ==> r->0.wf() && r->0@ == self@.query->0,
    {
        &self.query
    }

    /// The body, verbatim.
    pub fn body(&self) -> (r: &String)
        ensures
            r@ == self@.body,
    {
        &self.body
    }

    /// The body, for the caller to change in place.
    pub fn body_mut(&mut self) -> (r: &mut String)
        ensures
            r@ == old(self)@.body,
            final(self)@ == (RequestView { body: final(r)@, ..old(self)@ }),
            old(self).wf() ==> final(self).wf(),
    {
        &mut self.body
    }

    /// The header mapping, by lower-cased name.
    pub fn headers(&self) -> (r: &StrMap)
        requires
            self.wf(),
        ensures
            r.wf(),
            r@ == self@.headers,
    {
        &self.headers
    }

    /// The body length that the `content-length` header gives, or 0 where
    /// it is absent or does not read as a `usize`.
    pub fn content_len(&self) -> (r: usize)
        ensures
            r == content_length_of(self@.headers),
    {
        proof {
            reveal_strlit("content-length");
        }
        assert("content-length"@ =~= content_length_name());
        match self.headers.get("content-length") {
            Some(v) => {
                let cs = chars_of(v.as_str());
                match parse_usize_chars(&cs) {
                    Some(n) => n,
                    None => 0,
                }
            },
            None => 0,
        }
    }
}

proof fn lemma_no_blank_line(s: Seq<char>, i: int)
    requires
        0 <= i,
        forall|j: int|
            0 <= j && j + 4 <= s.len() ==> #[trigger] s.subrange(j, j + 4) != seq![
                '\r',
                '\n',
                '\r',
                '\n',
            ],
    ensures
        blank_line_from(s, i) is None,
    decreases s.len() - i,
{
    if i + 4 <= s.len() {
        assert(s.subrange(i, i + 4) != seq!['\r', '\n', '\r', '\n']);
        if s[i] == '\r' && s[i + 1] == '\n' && s[i + 2] == '\r' && s[i + 3] == '\n' {
            assert(s.subrange(i, i + 4) =~= seq!['\r', '\n', '\r', '\n']);
        }
        lemma_no_blank_line(s, i + 1);
    }
}

/// A buffer whose text holds no CRLF CRLF does not decode: the error is
/// `MissingHeaderEnd`, or `InvalidEncoding` where it is not UTF-8 text.
pub proof fn lemma_missing_header_end(buf: Seq<u8>)
    requires
        valid_utf8(buf) ==> forall|j: int|
            0 <= j && j + 4 <= decode_utf8(buf).len() ==> #[trigger] decode_utf8(buf).subrange(
                j,
                j + 4,
            ) != seq!['\r', '\n', '\r', '\n'],
    ensures
        decode(buf) == (if valid_utf8(buf) {
            Err::<RequestView, Error>(Error::MissingHeaderEnd)
        } else {
            Err::<RequestView, Error>(Error::InvalidEncoding)
        }),
{
    if valid_utf8(buf) {
        lemma_no_blank_line(decode_utf8(buf), 0);
    }
}

} // verus!
