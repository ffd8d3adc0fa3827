//! What the router says in its own voice, as the text that goes on the wire.
//!
//! Everything a caller can receive from this router that no child produced: a
//! refusal, the model listing, and a preflight answer. The framing is the same
//! whatever the answer: a declared length, a closed connection, and the
//! origin header that lets a page on this machine read it, because a caller
//! that can rely on none of those has to guess where the reply ended.

use vstd::prelude::*;

use super::endpoint::{allowed_text, Endpoint};
use super::refusal::{code_of, envelope_json, family_of, status_of, Cause, Refusal};
use crate::json::{quote, quoted};
use crate::text::{decimal, decimal_string, join, joined_with};

verus! {

/// The reason phrase a status carries.
pub open spec fn reason_of(status: u16) -> Seq<char> {
    if status == 200 {
        "OK"@
    } else if status == 204 {
        "No Content"@
    } else if status == 400 {
        "Bad Request"@
    } else if status == 404 {
        "Not Found"@
    } else if status == 405 {
        "Method Not Allowed"@
    } else if status == 408 {
        "Request Timeout"@
    } else if status == 409 {
        "Conflict"@
    } else if status == 411 {
        "Length Required"@
    } else if status == 413 {
        "Content Too Large"@
    } else if status == 431 {
        "Request Header Fields Too Large"@
    } else if status == 501 {
        "Not Implemented"@
    } else if status == 502 {
        "Bad Gateway"@
    } else if status == 503 {
        "Service Unavailable"@
    } else {
        "Gateway Timeout"@
    }
}

/// The reason phrase a status carries.
pub fn reason(status: u16) -> (r: &'static str)
    ensures
        r@ == reason_of(status),
{
    if status == 200 {
        "OK"
    } else if status == 204 {
        "No Content"
    } else if status == 400 {
        "Bad Request"
    } else if status == 404 {
        "Not Found"
    } else if status == 405 {
        "Method Not Allowed"
    } else if status == 408 {
        "Request Timeout"
    } else if status == 409 {
        "Conflict"
    } else if status == 411 {
        "Length Required"
    } else if status == 413 {
        "Content Too Large"
    } else if status == 431 {
        "Request Header Fields Too Large"
    } else if status == 501 {
        "Not Implemented"
    } else if status == 502 {
        "Bad Gateway"
    } else if status == 503 {
        "Service Unavailable"
    } else {
        "Gateway Timeout"
    }
}

/// How many bytes a character takes in UTF-8.
pub open spec fn utf8_width(c: char) -> nat {
    if (c as u32) < 0x80 {
        1
    } else if (c as u32) < 0x800 {
        2
    } else if (c as u32) < 0x10000 {
        3
    } else {
        4
    }
}

/// How many bytes a text takes in UTF-8, which is what `str::len` counts.
pub open spec fn utf8_len(s: Seq<char>) -> nat
    decreases s.len(),
{
    if s.len() == 0 {
        0
    } else {
        utf8_len(s.drop_last()) + utf8_width(s.last())
    }
}

/// How many bytes a text takes in UTF-8.
pub fn byte_length(s: &str) -> (n: u128)
    ensures
        n == utf8_len(s@),
{
    let v = crate::text::chars_of(s);
    let mut n: u128 = 0;
    let mut i: usize = 0;
    while i < v.len()
        invariant
            i <= v.len(),
            n == utf8_len(v@.subrange(0, i as int)),
            n <= 4 * i,
        decreases v.len() - i,
    {
        assert(v@.subrange(0, i + 1).drop_last() =~= v@.subrange(0, i as int));
        let c = v[i] as u32;
        let w: u128 = if c < 0x80 {
            1
        } else if c < 0x800 {
            2
        } else if c < 0x10000 {
            3
        } else {
            4
        };
        n = n + w;
        i += 1;
    }
    assert(v@.subrange(0, v.len() as int) =~= v@);
    n
}

/// One complete reply the router authored.
pub struct Reply {
    pub status: u16,
    pub content_type: Option<String>,
    pub headers: Vec<(String, String)>,
    pub body: String,
    /// Whether to send the head alone, as `HEAD` asks. The length declared
    /// is still the body's, so a client can size a buffer from it.
    pub head_only: bool,
}

/// Headers, each on its own line.
pub open spec fn header_lines(hs: Seq<(String, String)>) -> Seq<char>
    decreases hs.len(),
{
    if hs.len() == 0 {
        Seq::empty()
    } else {
        header_lines(hs.drop_last()) + hs.last().0@ + ": "@ + hs.last().1@ + "\r\n"@
    }
}

/// What a reply looks like on the wire.
pub open spec fn reply_text(r: Reply) -> Seq<char> {
    "HTTP/1.1 "@ + decimal(r.status as nat) + " "@ + reason_of(r.status) + "\r\n"@ + (match r.content_type {
        Some(t) => "Content-Type: "@ + t@ + "\r\n"@,
        None => ""@,
    }) + "Content-Length: "@ + decimal(utf8_len(r.body@)) + "\r\n"@ + header_lines(r.headers@)
        + "Access-Control-Allow-Origin: *\r\n"@ + "Connection: close\r\n\r\n"@ + (if r.head_only {
        ""@
    } else {
        r.body@
    })
}

impl Reply {
    /// The reply as the text that goes on the wire.
    pub fn text(&self) -> (t: String)
        ensures
            t@ == reply_text(*self),
    {
        let mut text = String::from_str("HTTP/1.1 ");
        text.append(decimal_string(self.status as u128).as_str());
        text.append(" ");
        text.append(reason(self.status));
        text.append("\r\n");
        match &self.content_type {
            Some(t) => {
                let mut line = String::from_str("Content-Type: ");
                line.append(t.as_str());
                line.append("\r\n");
                text.append(line.as_str());
            },
            None => {
                text.append("");
            },
        }
        text.append("Content-Length: ");
        text.append(decimal_string(byte_length(self.body.as_str())).as_str());
        text.append("\r\n");
        let ghost start = text@;
        let mut i: usize = 0;
        assert(self.headers@.subrange(0, 0) =~= Seq::<(String, String)>::empty());
        while i < self.headers.len()
            invariant
                i <= self.headers.len(),
                text@ == start + header_lines(self.headers@.subrange(0, i as int)),
            decreases self.headers.len() - i,
        {
            assert(self.headers@.subrange(0, i + 1).drop_last() =~= self.headers@.subrange(
                0,
                i as int,
            ));
            let mut line = String::from_str(self.headers[i].0.as_str());
            line.append(": ");
            line.append(self.headers[i].1.as_str());
            line.append("\r\n");
            text.append(line.as_str());
            i += 1;
        }
        assert(self.headers@.subrange(0, self.headers.len() as int) =~= self.headers@);
        text.append("Access-Control-Allow-Origin: *\r\n");
        text.append("Connection: close\r\n\r\n");
        if !self.head_only {
            text.append(self.body.as_str());
        } else {
            text.append("");
        }
        text
    }
}

/// The headers a refusal carries beyond the framing: `Retry-After` when
/// waiting changes the answer, and `Allow` when the method was the problem.
pub open spec fn refusal_headers(cause: Cause) -> Seq<(Seq<char>, Seq<char>)> {
    let retry: Seq<(Seq<char>, Seq<char>)> = if cause == Cause::RoomContended {
        seq![("Retry-After"@, "1"@)]
    } else {
        Seq::empty()
    };
    match cause {
        Cause::MethodNotAllowed(allowed) => retry.push(("Allow"@, allowed@)),
        _ => retry,
    }
}

/// The texts of a list of headers.
pub open spec fn texts_of(hs: Seq<(String, String)>) -> Seq<(Seq<char>, Seq<char>)> {
    hs.map_values(|h: (String, String)| (h.0@, h.1@))
}

/// Refuses a request, before a byte of any child's response was forwarded.
pub fn refuse(refusal: &Refusal) -> (r: Reply)
    ensures
        r.status == status_of(refusal.cause),
        r.content_type matches Some(t) && t@ == "application/json"@,
        texts_of(r.headers@) == refusal_headers(refusal.cause),
        r.body@ == envelope_json(
            refusal.message@,
            family_of(refusal.cause),
            code_of(refusal.cause),
        ),
        !r.head_only,
{
    let mut headers: Vec<(String, String)> = Vec::new();
    if let Some(seconds) = refusal.cause().retry_after_seconds() {
        headers.push((String::from_str("Retry-After"), decimal_string(seconds as u128)));
        proof {
            reveal_strlit("1");
            assert(decimal(1) =~= "1"@);
        }
    }
    let ghost before = texts_of(headers@);
    if let Cause::MethodNotAllowed(allowed) = refusal.cause() {
        headers.push((String::from_str("Allow"), String::from_str(allowed)));
        assert(texts_of(headers@) =~= before.push(("Allow"@, allowed@)));
    }
    assert(texts_of(headers@) =~= refusal_headers(refusal.cause));
    Reply {
        status: refusal.cause().status(),
        content_type: Some(String::from_str("application/json")),
        headers,
        body: refusal.envelope(),
        head_only: false,
    }
}

/// Answers a preflight: what this endpoint accepts, from any page on this
/// machine.
///
/// Permissive because the router binds loopback only, so the origin that can
/// reach it is already the machine's own. Never a child's business: a
/// preflight asks what is allowed, and the router knows.
pub fn preflight(endpoint: &Endpoint) -> (r: Reply)
    ensures
        r.status == 204,
        r.content_type is None,
        texts_of(r.headers@) == seq![
            ("Allow"@, allowed_text(endpoint@)),
            ("Access-Control-Allow-Methods"@, allowed_text(endpoint@)),
            ("Access-Control-Allow-Headers"@, "*"@),
            ("Access-Control-Max-Age"@, "86400"@),
        ],
        r.body@.len() == 0,
        r.head_only,
{
    let allowed = endpoint.allowed();
    let mut headers: Vec<(String, String)> = Vec::new();
    headers.push((String::from_str("Allow"), String::from_str(allowed)));
    headers.push((String::from_str("Access-Control-Allow-Methods"), String::from_str(allowed)));
    headers.push((String::from_str("Access-Control-Allow-Headers"), String::from_str("*")));
    headers.push((String::from_str("Access-Control-Max-Age"), String::from_str("86400")));
    assert(texts_of(headers@) =~= seq![
        ("Allow"@, allowed_text(endpoint@)),
        ("Access-Control-Allow-Methods"@, allowed_text(endpoint@)),
        ("Access-Control-Allow-Headers"@, "*"@),
        ("Access-Control-Max-Age"@, "86400"@),
    ]);
    let body = String::new();
    Reply { status: 204, content_type: None, headers, body, head_only: true }
}

/// A JSON answer of the router's own, with the framing every answer has.
pub fn json(body: String, head_only: bool) -> (r: Reply)
    ensures
        r.status == 200,
        r.content_type matches Some(t) && t@ == "application/json"@,
        r.headers@.len() == 0,
        r.body@ == body@,
        r.head_only == head_only,
{
    Reply {
        status: 200,
        content_type: Some(String::from_str("application/json")),
        headers: Vec::new(),
        body,
        head_only,
    }
}

/// One model as the `OpenAI` listing writes it.
pub open spec fn model_json(id: Seq<char>) -> Seq<char> {
    "{\"id\":"@ + quoted(id) + ",\"object\":\"model\",\"owned_by\":\"maestro-llamacpp\"}"@
}

/// The `OpenAI` model listing of these identifiers, in order:
/// `{"data":[{"id":..,"object":"model","owned_by":"maestro-llamacpp"},..],"object":"list"}`.
pub open spec fn listing_json(ids: Seq<Seq<char>>) -> Seq<char> {
    "{\"data\":["@ + joined_with(ids.map_values(|id: Seq<char>| model_json(id)), ","@)
        + "],\"object\":\"list\"}"@
}

/// The `OpenAI` listing as JSON text.
fn write_listing(ids: &[String]) -> (r: String)
    ensures
        r@ == listing_json(ids@.map_values(|s: String| s@)),
{
    let ghost texts = ids@.map_values(|s: String| s@);
    let mut models: Vec<String> = Vec::new();
    let mut i: usize = 0;
    while i < ids.len()
        invariant
            i <= ids.len(),
            texts == ids@.map_values(|s: String| s@),
            models@.map_values(|m: String| m@) == texts.subrange(0, i as int).map_values(
                |id: Seq<char>| model_json(id),
            ),
        decreases ids.len() - i,
    {
        let ghost before = models@.map_values(|m: String| m@);
        let mut model = String::from_str("{\"id\":");
        model.append(quote(ids[i].as_str()).as_str());
        model.append(",\"object\":\"model\",\"owned_by\":\"maestro-llamacpp\"}");
        models.push(model);
        assert(models@.map_values(|m: String| m@) =~= before.push(model_json(texts[i as int])));
        assert(texts.subrange(0, i + 1).map_values(|id: Seq<char>| model_json(id)) =~= texts.subrange(
            0,
            i as int,
        ).map_values(|id: Seq<char>| model_json(id)).push(model_json(texts[i as int])));
        i += 1;
    }
    assert(texts.subrange(0, ids.len() as int) =~= texts);
    let mut r = String::from_str("{\"data\":[");
    r.append(join(&models, ",").as_str());
    r.append("],\"object\":\"list\"}");
    r
}

/// Every entry the catalog carries, in the shape a client expects.
///
/// Answered from the catalog and nothing else: listing what can be served is
/// not a reason to start serving it, so no child is touched.
pub fn listing(ids: &Vec<String>, head_only: bool) -> (r: Reply)
    ensures
        r.status == 200,
        r.content_type matches Some(t) && t@ == "application/json"@,
        r.headers@.len() == 0,
        r.body@ == listing_json(ids@.map_values(|s: String| s@)),
        r.head_only == head_only,
{
    json(write_listing(ids.as_slice()), head_only)
}

} // verus!
