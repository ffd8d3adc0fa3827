//! The request head: what the router reads of a request, and what it sends on.
//!
//! Pure conversion. Lines in, a parsed head out, and a rewritten head back to
//! text -- no sockets, no processes, no clock. This is the only part of a
//! request the router understands. Everything after the blank line is copied
//! without being read: what the router does not parse, it cannot buffer.

pub mod read;

use vstd::prelude::*;

use super::endpoint::{route_of, suffix_of, Endpoint, Route};
use super::refusal::{Cause, Refusal};
use crate::text::{
    chars_of, contains, holds, lowercase, parse_usize, read_usize, same_ignoring_case,
    same_text_ignoring_case, split_at_first, split_once, string_of, to_lower, trim, trimmed,
    words, words_of, views,
};

verus! {

/// What a request said about the length of its body.
///
/// Three states rather than a number, because they are three different
/// requests and a router that folded them into one would answer two of them
/// wrongly. Saying nothing is a request with no body. Saying something
/// unreadable is a request this router cannot honour.
#[derive(Debug, Clone, PartialEq, Eq)]
pub enum Length {
    /// No `Content-Length` header at all.
    Absent,
    /// A length this router can act on.
    Given(usize),
    /// A header that will not parse, kept as received so a refusal can quote
    /// back what arrived.
    Malformed(String),
}

/// A length as its text.
pub enum Declared {
    Absent,
    Given(usize),
    Malformed(Seq<char>),
}

impl View for Length {
    type V = Declared;

    open spec fn view(&self) -> Declared {
        match self {
            Length::Absent => Declared::Absent,
            Length::Given(n) => Declared::Given(*n),
            Length::Malformed(v) => Declared::Malformed(v@),
        }
    }
}

/// A parsed request head.
///
/// The endpoint is resolved at parse time because every caller wants it: it
/// says which model answers, and what the child is asked for.
#[derive(Debug, Clone, PartialEq, Eq)]
pub struct Head {
    /// The method, passed through unchanged.
    pub method: String,
    /// Which endpoint the path addressed.
    pub endpoint: Endpoint,
    /// Every header as received, in order, name and value trimmed.
    pub headers: Vec<(String, String)>,
    /// What the request said about its body's length.
    pub length: Length,
    /// Whether the request announced chunked framing, which this router
    /// refuses rather than guesses at.
    pub chunked: bool,
    /// Whether the caller is holding its body back until it is told to send
    /// it, as `Expect: 100-continue` says. The router meets this itself, so
    /// the header does not travel on.
    pub expects_continue: bool,
}

/// A head as its texts.
pub struct HeadView {
    pub method: Seq<char>,
    pub route: Route,
    pub headers: Seq<(Seq<char>, Seq<char>)>,
    pub length: Declared,
    pub chunked: bool,
    pub expects_continue: bool,
}

/// The names and values of a list of headers.
pub open spec fn header_texts(h: Seq<(String, String)>) -> Seq<(Seq<char>, Seq<char>)> {
    h.map_values(|p: (String, String)| (p.0@, p.1@))
}

impl View for Head {
    type V = HeadView;

    open spec fn view(&self) -> HeadView {
        HeadView {
            method: self.method@,
            route: self.endpoint@,
            headers: header_texts(self.headers@),
            length: self.length@,
            chunked: self.chunked,
            expects_continue: self.expects_continue,
        }
    }
}

/// What the header lines have said so far.
pub struct HeaderState {
    pub headers: Seq<(Seq<char>, Seq<char>)>,
    pub length: Declared,
    pub chunked: bool,
    pub expects_continue: bool,
}

/// One header line as a name and a value, each trimmed, or `None` for a line
/// with no colon, which is not a header.
pub open spec fn header_of(line: Seq<char>) -> Option<(Seq<char>, Seq<char>)> {
    match split_once(line, ':') {
        Some((name, value)) => Some((trim(name), trim(value))),
        None => None,
    }
}

/// What a run of header lines says, read in order: every header kept, the
/// last `Content-Length` deciding the length, and chunked framing or an
/// expectation of `100-continue` noticed whatever their case.
pub open spec fn headers_read(ls: Seq<Seq<char>>) -> HeaderState
    decreases ls.len(),
{
    if ls.len() == 0 {
        HeaderState {
            headers: Seq::empty(),
            length: Declared::Absent,
            chunked: false,
            expects_continue: false,
        }
    } else {
        let st = headers_read(ls.drop_last());
        match header_of(ls.last()) {
            None => st,
            Some((name, value)) => HeaderState {
                headers: st.headers.push((name, value)),
                length: if same_ignoring_case(name, "content-length"@) {
                    match parse_usize(value) {
                        Some(n) => Declared::Given(n),
                        None => Declared::Malformed(value),
                    }
                } else {
                    st.length
                },
                chunked: st.chunked || (same_ignoring_case(name, "transfer-encoding"@)
                    && contains(lowercase(value), "chunked"@)),
                expects_continue: st.expects_continue || (same_ignoring_case(name, "expect"@)
                    && same_ignoring_case(value, "100-continue"@)),
            },
        }
    }
}

/// What the lines of a head say, or the cause and the words it is refused
/// with.
pub open spec fn head_of(lines: Seq<Seq<char>>) -> Result<HeadView, (Cause, Seq<char>)> {
    if lines.len() == 0 {
        Err((Cause::MalformedRequest, "a request with no request line"@))
    } else if words(lines[0]).len() == 0 {
        Err((Cause::MalformedRequest, "a request line with no method"@))
    } else if words(lines[0]).len() == 1 {
        Err((Cause::MalformedRequest, "a request line with no path"@))
    } else {
        match route_of(words(lines[0])[1]) {
            Err(why) => Err((Cause::PathNotFound, why)),
            Ok(route) => {
                let st = headers_read(lines.drop_first());
                Ok(
                    HeadView {
                        method: words(lines[0])[0],
                        route,
                        headers: st.headers,
                        length: st.length,
                        chunked: st.chunked,
                        expects_continue: st.expects_continue,
                    },
                )
            },
        }
    }
}

/// A request this router cannot read as one.
fn malformed(reason: &str) -> (r: Refusal)
    ensures
        r.cause == Cause::MalformedRequest,
        r.message@ == reason@,
{
    Refusal::new(Cause::MalformedRequest, String::from_str(reason))
}

/// Turns the lines of a head into the parts the router routes on.
///
/// # Errors
///
/// Returns a [`Refusal`] when there is no request line, or when the path is
/// not a shape this router serves.
pub fn parse(lines: &[String]) -> (r: Result<Head, Refusal>)
    ensures
        match head_of(lines@.map_values(|l: String| l@)) {
            Ok(h) => r matches Ok(head) && head@ == h,
            Err((cause, why)) => r matches Err(refusal) && refusal.cause == cause
                && refusal.message@ == why,
        },
{
    let ghost all = lines@.map_values(|l: String| l@);
    if lines.len() == 0 {
        return Err(malformed("a request with no request line"));
    }
    assert(all[0] == lines@[0]@);
    let first = chars_of(lines[0].as_str());
    let ws = words_of(&first);
    if ws.len() == 0 {
        return Err(malformed("a request line with no method"));
    }
    if ws.len() == 1 {
        return Err(malformed("a request line with no path"));
    }
    assert(views(ws@)[0] == ws@[0]@ && views(ws@)[1] == ws@[1]@);
    let method = string_of(ws[0].as_slice());
    let path = string_of(ws[1].as_slice());
    let endpoint = match Endpoint::of(path.as_str()) {
        Ok(e) => e,
        Err(refusal) => {
            return Err(refusal);
        },
    };
    let mut headers: Vec<(String, String)> = Vec::new();
    let mut length = Length::Absent;
    let mut chunked = false;
    let mut expects_continue = false;
    let ghost rest = all.drop_first();
    let mut i: usize = 1;
    assert(rest.subrange(0, 0) =~= Seq::<Seq<char>>::empty());
    assert(header_texts(headers@) =~= Seq::<(Seq<char>, Seq<char>)>::empty());
    while i < lines.len()
        invariant
            1 <= i <= lines.len(),
            all == lines@.map_values(|l: String| l@),
            rest == all.drop_first(),
            headers_read(rest.subrange(0, i - 1)) == (HeaderState {
                headers: header_texts(headers@),
                length: length@,
                chunked,
                expects_continue,
            }),
        decreases lines.len() - i,
    {
        assert(rest.subrange(0, i as int).drop_last() =~= rest.subrange(0, i - 1));
        assert(rest.subrange(0, i as int).last() == lines@[i as int]@);
        let line = chars_of(lines[i].as_str());
        if let Some((n, v)) = split_at_first(&line, ':') {
            let name = trimmed(&n);
            let value = trimmed(&v);
            if same_text_ignoring_case(&name, &chars_of("content-length")) {
                length = match read_usize(&value) {
                    Some(k) => Length::Given(k),
                    None => Length::Malformed(string_of(value.as_slice())),
                };
            }
            if same_text_ignoring_case(&name, &chars_of("transfer-encoding")) && holds(
                &to_lower(&value),
                &chars_of("chunked"),
            ) {
                chunked = true;
            }
            if same_text_ignoring_case(&name, &chars_of("expect")) && same_text_ignoring_case(
                &value,
                &chars_of("100-continue"),
            ) {
                expects_continue = true;
            }
            let ghost before = header_texts(headers@);
            headers.push((string_of(name.as_slice()), string_of(value.as_slice())));
            assert(header_texts(headers@) =~= before.push((name@, value@)));
        }
        i += 1;
    }
    assert(rest.subrange(0, lines.len() - 1) =~= rest);
    Ok(Head { method, endpoint, headers, length, chunked, expects_continue })
}

/// How many bytes of body a head declares: none unless a length was given.
pub open spec fn declared_bytes(length: Declared) -> usize {
    match length {
        Declared::Given(n) => n,
        _ => 0,
    }
}

/// Whether a header is one the rewritten head replaces or drops: the
/// caller's `Host`, `Connection` and `Expect`.
pub open spec fn replaced(name: Seq<char>) -> bool {
    same_ignoring_case(name, "host"@) || same_ignoring_case(name, "connection"@)
        || same_ignoring_case(name, "expect"@)
}

/// The headers that travel on, each on its own line.
pub open spec fn forwarded(hs: Seq<(Seq<char>, Seq<char>)>) -> Seq<char>
    decreases hs.len(),
{
    if hs.len() == 0 {
        Seq::empty()
    } else if replaced(hs.last().0) {
        forwarded(hs.drop_last())
    } else {
        forwarded(hs.drop_last()) + hs.last().0 + ": "@ + hs.last().1 + "\r\n"@
    }
}

/// The head sent upstream: the same method, the suffix as the path, pointed
/// at the child and asked to close when done, then every other header as
/// received.
pub open spec fn rewritten(h: HeadView, upstream: Seq<char>) -> Seq<char> {
    h.method + " "@ + suffix_of(h.route) + " HTTP/1.1\r\n"@ + "Host: "@ + upstream + "\r\n"@
        + "Connection: close\r\n"@ + forwarded(h.headers) + "\r\n"@
}

impl Head {
    /// How many bytes of body to copy, which is none unless one was declared.
    ///
    /// A malformed length never reaches here: it is refused where a status is
    /// still possible, which is before anything is forwarded.
    pub fn body_bytes(&self) -> (r: usize)
        ensures
            r == declared_bytes(self.length@),
    {
        match self.length {
            Length::Given(bytes) => bytes,
            Length::Absent | Length::Malformed(_) => 0,
        }
    }

    /// The head to send upstream to the child at `upstream` (its address as
    /// `host:port`): the same method, the suffix as the path, pointed at the
    /// child and asked to close when done.
    ///
    /// Every other header is passed through as received. The caller's Host
    /// named the router, and its Connection was about the router's
    /// connection; both are answered with the child's. Its Expect was met by
    /// the router before the body was read, so the child is not asked to
    /// meet it again.
    pub fn rewrite(&self, upstream: &str) -> (r: String)
        ensures
            r@ == rewritten(self@, upstream@),
    {
        let mut text = String::from_str(self.method.as_str());
        text.append(" ");
        text.append(self.endpoint.suffix());
        text.append(" HTTP/1.1\r\n");
        text.append("Host: ");
        text.append(upstream);
        text.append("\r\n");
        text.append("Connection: close\r\n");
        let ghost start = text@;
        let ghost hs = header_texts(self.headers@);
        let mut i: usize = 0;
        assert(hs.subrange(0, 0) =~= Seq::<(Seq<char>, Seq<char>)>::empty());
        while i < self.headers.len()
            invariant
                i <= self.headers.len(),
                hs == header_texts(self.headers@),
                text@ == start + forwarded(hs.subrange(0, i as int)),
            decreases self.headers.len() - i,
        {
            assert(hs.subrange(0, i + 1).drop_last() =~= hs.subrange(0, i as int));
            assert(hs.subrange(0, i + 1).last() == (self.headers@[i as int].0@,
            self.headers@[i as int].1@));
            let name = chars_of(self.headers[i].0.as_str());
            let skip = same_text_ignoring_case(&name, &chars_of("host"))
                || same_text_ignoring_case(&name, &chars_of("connection"))
                || same_text_ignoring_case(&name, &chars_of("expect"));
            if !skip {
                let ghost was = text@;
                let mut line = String::from_str(self.headers[i].0.as_str());
                line.append(": ");
                line.append(self.headers[i].1.as_str());
                line.append("\r\n");
                text.append(line.as_str());
                assert(text@ =~= start + forwarded(hs.subrange(0, i + 1)));
            }
            i += 1;
        }
        assert(hs.subrange(0, self.headers.len() as int) =~= hs);
        text.append("\r\n");
        text
    }
}

} // verus!
