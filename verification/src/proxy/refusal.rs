//! Why a request was refused, and what a client is told about it.
//!
//! A refusal is a cause and the prose about it. The cause is what a program
//! reads: it fixes the status, a code that names the cause and nothing else,
//! and whether waiting can change the answer. The prose is what a person
//! reads, and it can be reworded without any client noticing, because no
//! client has to match it.

use vstd::prelude::*;

use crate::launch::{failure_text, Failure};
use crate::json::{quote, quoted};

verus! {

/// Why a request was refused.
///
/// One variant per cause a client can act on differently, and no more: the
/// status and the code are read off this, so two causes a client would treat
/// the same way share a variant.
#[derive(Debug, Clone, Copy, PartialEq, Eq)]
pub enum Cause {
    /// The head could not be read as a request at all.
    MalformedRequest,
    /// The head exceeded a bound this router reads within.
    HeadTooLarge,
    /// The caller stopped sending before the router had what it needed.
    RequestTimeout,
    /// The path is no shape this router serves.
    PathNotFound,
    /// The path or the body names a model the catalog does not carry.
    ModelNotFound,
    /// The method is none a model can be asked anything with. Carries the
    /// methods the endpoint does answer, which the reply says in `Allow`.
    MethodNotAllowed(&'static str),
    /// The request announced chunked framing, which is not implemented.
    ChunkedBody,
    /// The `Content-Length` will not parse.
    MalformedLength,
    /// The generic endpoint was sent no declared body.
    LengthRequired,
    /// The body is larger than the router will read.
    BodyTooLarge,
    /// The body ended before the length it declared.
    BodyIncomplete,
    /// The body is not JSON.
    BodyNotJson,
    /// The body names no model, on the endpoint that routes on one.
    ModelMissing,
    /// The child could not be started at all.
    ChildUnavailable,
    /// The child did not become ready inside its startup budget.
    StartupTimeout,
    /// The room this model needs is held by something that may finish.
    RoomContended,
    /// Nothing can be unloaded to make room.
    NoRoom,
    /// The entry asked to give up its slot is being read from.
    EntryBusy,
}

/// The status a cause is answered with.
pub open spec fn status_of(cause: Cause) -> u16 {
    match cause {
        Cause::MalformedRequest => 400,
        Cause::HeadTooLarge => 431,
        Cause::RequestTimeout => 408,
        Cause::PathNotFound => 404,
        Cause::ModelNotFound => 404,
        Cause::MethodNotAllowed(_) => 405,
        Cause::ChunkedBody => 501,
        Cause::MalformedLength => 400,
        Cause::LengthRequired => 411,
        Cause::BodyTooLarge => 413,
        Cause::BodyIncomplete => 400,
        Cause::BodyNotJson => 400,
        Cause::ModelMissing => 400,
        Cause::ChildUnavailable => 502,
        Cause::StartupTimeout => 504,
        Cause::RoomContended => 503,
        Cause::NoRoom => 503,
        Cause::EntryBusy => 409,
    }
}

/// The code that names a cause and nothing else.
pub open spec fn code_of(cause: Cause) -> Seq<char> {
    match cause {
        Cause::MalformedRequest => "malformed_request"@,
        Cause::HeadTooLarge => "request_head_too_large"@,
        Cause::RequestTimeout => "request_timeout"@,
        Cause::PathNotFound => "path_not_found"@,
        Cause::ModelNotFound => "model_not_found"@,
        Cause::MethodNotAllowed(_) => "method_not_allowed"@,
        Cause::ChunkedBody => "chunked_body_not_implemented"@,
        Cause::MalformedLength => "malformed_content_length"@,
        Cause::LengthRequired => "content_length_required"@,
        Cause::BodyTooLarge => "body_too_large"@,
        Cause::BodyIncomplete => "body_incomplete"@,
        Cause::BodyNotJson => "body_not_json"@,
        Cause::ModelMissing => "model_missing"@,
        Cause::ChildUnavailable => "child_unavailable"@,
        Cause::StartupTimeout => "startup_timeout"@,
        Cause::RoomContended => "room_contended"@,
        Cause::NoRoom => "insufficient_room"@,
        Cause::EntryBusy => "entry_busy"@,
    }
}

/// The family an OpenAI-compatible client reads first: the caller's error
/// below 500, the server's from there.
pub open spec fn family_of(cause: Cause) -> Seq<char> {
    if status_of(cause) < 500 {
        "invalid_request_error"@
    } else {
        "server_error"@
    }
}

/// The error envelope `{"error":{"code":..,"message":..,"type":..}}`, its
/// members in key order.
pub open spec fn envelope_json(message: Seq<char>, family: Seq<char>, code: Seq<char>) -> Seq<char> {
    "{\"error\":{\"code\":"@ + quoted(code) + ",\"message\":"@ + quoted(message) + ",\"type\":"@
        + quoted(family) + "}}"@
}

/// The error envelope as JSON text.
fn write_envelope(message: &str, family: &str, code: &str) -> (r: String)
    ensures
        r@ == envelope_json(message@, family@, code@),
{
    let mut r = String::from_str("{\"error\":{\"code\":");
    r.append(quote(code).as_str());
    r.append(",\"message\":");
    r.append(quote(message).as_str());
    r.append(",\"type\":");
    r.append(quote(family).as_str());
    r.append("}}");
    r
}

impl Cause {
    /// The status this cause is answered with.
    pub fn status(self) -> (r: u16)
        ensures
            r == status_of(self),
    {
        match self {
            Cause::MalformedRequest => 400,
            Cause::HeadTooLarge => 431,
            Cause::RequestTimeout => 408,
            Cause::PathNotFound => 404,
            Cause::ModelNotFound => 404,
            Cause::MethodNotAllowed(_) => 405,
            Cause::ChunkedBody => 501,
            Cause::MalformedLength => 400,
            Cause::LengthRequired => 411,
            Cause::BodyTooLarge => 413,
            Cause::BodyIncomplete => 400,
            Cause::BodyNotJson => 400,
            Cause::ModelMissing => 400,
            Cause::ChildUnavailable => 502,
            Cause::StartupTimeout => 504,
            Cause::RoomContended => 503,
            Cause::NoRoom => 503,
            Cause::EntryBusy => 409,
        }
    }

    /// The code that names this cause and nothing else.
    pub fn code(self) -> (r: &'static str)
        ensures
            r@ == code_of(self),
    {
        match self {
            Cause::MalformedRequest => "malformed_request",
            Cause::HeadTooLarge => "request_head_too_large",
            Cause::RequestTimeout => "request_timeout",
            Cause::PathNotFound => "path_not_found",
            Cause::ModelNotFound => "model_not_found",
            Cause::MethodNotAllowed(_) => "method_not_allowed",
            Cause::ChunkedBody => "chunked_body_not_implemented",
            Cause::MalformedLength => "malformed_content_length",
            Cause::LengthRequired => "content_length_required",
            Cause::BodyTooLarge => "body_too_large",
            Cause::BodyIncomplete => "body_incomplete",
            Cause::BodyNotJson => "body_not_json",
            Cause::ModelMissing => "model_missing",
            Cause::ChildUnavailable => "child_unavailable",
            Cause::StartupTimeout => "startup_timeout",
            Cause::RoomContended => "room_contended",
            Cause::NoRoom => "insufficient_room",
            Cause::EntryBusy => "entry_busy",
        }
    }

    /// How long a client should wait before trying again, when waiting is
    /// what changes the answer.
    ///
    /// Only the contended room earns this: the request that took the room
    /// first is loading or answering, and when it is done the room is free.
    /// Nothing else here is improved by waiting.
    pub fn retry_after_seconds(self) -> (r: Option<u32>)
        ensures
            r == (if self == Cause::RoomContended {
                Some(1u32)
            } else {
                None
            }),
    {
        match self {
            Cause::RoomContended => Some(1),
            _ => None,
        }
    }

    /// The family an OpenAI-compatible client reads first.
    pub fn family(self) -> (r: &'static str)
        ensures
            r@ == family_of(self),
    {
        if self.status() < 500 {
            "invalid_request_error"
        } else {
            "server_error"
        }
    }
}

/// A refusal the router authored: the cause, and the prose about it.
#[derive(Debug, Clone, PartialEq, Eq)]
pub struct Refusal {
    pub cause: Cause,
    pub message: String,
}

/// The cause a launcher's failure earns: distinguished by variant and never
/// by prose.
pub open spec fn failure_cause(f: Failure) -> Cause {
    match f {
        Failure::NotReady(_) => Cause::StartupTimeout,
        Failure::Unavailable(_) => Cause::ChildUnavailable,
        Failure::Contended(_) => Cause::RoomContended,
        Failure::Refused(_) => Cause::NoRoom,
    }
}

impl Refusal {
    /// A refusal for this cause, in these words.
    pub fn new(cause: Cause, message: String) -> (r: Self)
        ensures
            r.cause == cause,
            r.message@ == message@,
    {
        Refusal { cause, message }
    }

    /// Why the request was refused.
    pub fn cause(&self) -> (r: Cause)
        ensures
            r == self.cause,
    {
        self.cause
    }

    /// The prose alone, as a person reads it.
    pub fn text(&self) -> (r: &str)
        ensures
            r@ == self.message@,
    {
        self.message.as_str()
    }

    /// The envelope, as the body of the reply: the shape OpenAI-compatible
    /// clients already parse.
    pub fn envelope(&self) -> (r: String)
        ensures
            r@ == envelope_json(self.message@, family_of(self.cause), code_of(self.cause)),
    {
        write_envelope(self.message.as_str(), self.cause.family(), self.cause.code())
    }
}

impl From<Failure> for Refusal {
    /// A launcher's failure, as the refusal it earns, its words untouched.
    fn from(failure: Failure) -> (r: Self)
        ensures
            r.cause == failure_cause(failure),
            r.message@ == failure_text(failure),
    {
        match failure {
            Failure::NotReady(m) => Refusal { cause: Cause::StartupTimeout, message: m },
            Failure::Unavailable(m) => Refusal { cause: Cause::ChildUnavailable, message: m },
            Failure::Contended(m) => Refusal { cause: Cause::RoomContended, message: m },
            Failure::Refused(m) => Refusal { cause: Cause::NoRoom, message: m },
        }
    }
}

impl vstd::std_specs::convert::FromSpecImpl<Failure> for Refusal {
    open spec fn obeys_from_spec() -> bool {
        true
    }

    open spec fn from_spec(v: Failure) -> Refusal {
        match v {
            Failure::NotReady(m) => Refusal { cause: Cause::StartupTimeout, message: m },
            Failure::Unavailable(m) => Refusal { cause: Cause::ChildUnavailable, message: m },
            Failure::Contended(m) => Refusal { cause: Cause::RoomContended, message: m },
            Failure::Refused(m) => Refusal { cause: Cause::NoRoom, message: m },
        }
    }
}

} // verus!
