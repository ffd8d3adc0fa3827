//! The request body, and the model it names.
//!
//! The generic endpoint learns which model answers from the body rather than
//! the path, so this is the one thing the router reads that it used to copy.
//! The **request** body is buffered here; the **response** relay is
//! untouched.
//!
//! Parsed with a library rather than scanned by hand, because the router
//! *must* interpret, correctly, and these are the cases a hand-written search
//! gets wrong: a key inside a string value, a key behind an escape, and a
//! decoy at depth. Getting any of them wrong routes a request to the wrong
//! model, which then answers plausibly and nothing downstream notices.

use vstd::prelude::*;

use crate::launch::{failure_text, Failure};
use crate::text::{decimal, decimal_string};
use crate::text_bytes::byte_slice;

verus! {

/// The most a request body may declare before it is refused.
///
/// Far above a conversation and far below a size worth allocating on a
/// stranger's say-so. A multimodal request carrying a large base64 image is
/// the realistic way to approach it, which is why the refusal names the limit
/// rather than leaving the reader to guess what to change.
pub const MAX_BODY_BYTES: usize = 8388608;

/// What `serde_json` reads from a body for one top-level key: `Err` with
/// its own words when the bytes are not JSON, else the string that key
/// carries, if the body is an object and the key carries a string.
pub uninterp spec fn member_text(bytes: Seq<u8>, key: Seq<char>) -> Result<Option<Seq<char>>, Seq<char>>;

/// `serde_json::from_slice` into a `Value`, then `get(key)` and `as_str` on
/// it: the string a top-level key carries, if it carries one, or the
/// parser's error in its own words. What the parser accepts and what it
/// says is named, not stated.
#[verifier::external_body]
fn string_member(bytes: &[u8], key: &str) -> (r: Result<Option<String>, String>)
    ensures
        match r {
            Ok(Some(m)) => member_text(bytes@, key@) == Ok::<Option<Seq<char>>, Seq<char>>(Some(m@)),
            Ok(None) => member_text(bytes@, key@) == Ok::<Option<Seq<char>>, Seq<char>>(None),
            Err(e) => member_text(bytes@, key@) == Err::<Option<Seq<char>>, Seq<char>>(e@),
        },
{
    match serde_json::from_slice::<serde_json::Value>(bytes) {
        Ok(value) => Ok(value.get(key).and_then(serde_json::Value::as_str).map(str::to_owned)),
        Err(error) => Err(error.to_string()),
    }
}

/// What a body says of its top-level `model` key.
pub open spec fn model_field(bytes: Seq<u8>) -> Result<Option<Seq<char>>, Seq<char>> {
    member_text(bytes, "model"@)
}

/// The string a body's top-level `model` key carries, if any, or why the
/// body is not JSON.
pub(crate) fn parse_model(bytes: &[u8]) -> (r: Result<Option<String>, String>)
    ensures
        match r {
            Ok(Some(m)) => model_field(bytes@) == Ok::<Option<Seq<char>>, Seq<char>>(Some(m@)),
            Ok(None) => model_field(bytes@) == Ok::<Option<Seq<char>>, Seq<char>>(None),
            Err(e) => model_field(bytes@) == Err::<Option<Seq<char>>, Seq<char>>(e@),
        },
{
    string_member(bytes, "model")
}

/// Why a body that names no model is refused, naming the endpoint that needs
/// no such field.
pub open spec fn no_model_text() -> Seq<char> {
    "the generic endpoint routes on the 'model' field of the request body, and this request carries none; name a model there, or address a model directly at /models/<model>/<path>"@
}

/// Why a body over the bound is refused.
pub open spec fn too_large_text(declared: nat) -> Seq<char> {
    "a request body of "@ + decimal(declared) + " bytes is larger than the "@ + decimal(
        MAX_BODY_BYTES as nat,
    ) + " this router will read"@
}

/// Why a body that ended early is refused, in the words the read gave.
pub open spec fn ended_text(declared: nat, error: Seq<char>) -> Seq<char> {
    "a request body declaring "@ + decimal(declared) + " bytes ended early: "@ + error
}

/// The words `read_exact` gives when the bytes ran out.
pub open spec fn short_read_text() -> Seq<char> {
    "failed to fill whole buffer"@
}

/// The model a complete body names, or why it names none.
pub open spec fn routed(bytes: Seq<u8>) -> Result<Seq<char>, Seq<char>> {
    match model_field(bytes) {
        Err(e) => Err("a request body that is not JSON: "@ + e),
        Ok(None) => Err(no_model_text()),
        Ok(Some(m)) => Ok(m),
    }
}

/// A body this router will not route on, and why.
fn refused(reason: String) -> (f: Failure)
    ensures
        f matches Failure::Unavailable(m) && m@ == reason@,
{
    Failure::Unavailable(reason)
}

/// The model a complete body names.
///
/// # Errors
///
/// Returns a [`Failure`] when the body is not JSON, or when its top level
/// names no model as a string.
pub fn model_of(bytes: &[u8]) -> (r: Result<String, Failure>)
    ensures
        match routed(bytes@) {
            Ok(m) => r matches Ok(s) && s@ == m,
            Err(why) => r matches Err(f) && f is Unavailable && failure_text(f) == why,
        },
{
    match parse_model(bytes) {
        Err(e) => {
            let mut m = String::from_str("a request body that is not JSON: ");
            m.append(e.as_str());
            Err(refused(m))
        },
        Ok(None) => Err(
            refused(
                String::from_str(
                    "the generic endpoint routes on the 'model' field of the request body, and this request carries none; name a model there, or address a model directly at /models/<model>/<path>",
                ),
            ),
        ),
        Ok(Some(m)) => Ok(m),
    }
}

/// Refuses a declared length over the bound, before anything is allocated.
///
/// # Errors
///
/// Returns a [`Failure`] naming the limit when the length exceeds it.
pub fn check_length(content_length: usize) -> (r: Result<(), Failure>)
    ensures
        content_length <= MAX_BODY_BYTES ==> r is Ok,
        content_length > MAX_BODY_BYTES ==> (r matches Err(f) && f is Unavailable && failure_text(
            f,
        ) == too_large_text(content_length as nat)),
{
    if content_length > MAX_BODY_BYTES {
        let mut m = String::from_str("a request body of ");
        m.append(decimal_string(content_length as u128).as_str());
        m.append(" bytes is larger than the ");
        m.append(decimal_string(MAX_BODY_BYTES as u128).as_str());
        m.append(" this router will read");
        return Err(refused(m));
    }
    Ok(())
}

/// Reads exactly the declared body out of what arrived, and says which model
/// it names.
///
/// Returns the bytes alongside the name so the caller forwards what it already
/// has rather than re-serialising a body it does not own. The bound is checked
/// before anything is taken: checking after reading would mean taking the
/// memory first and objecting to it afterwards.
///
/// # Errors
///
/// Returns a [`Failure`] when the declared length exceeds [`MAX_BODY_BYTES`],
/// when fewer bytes arrived than were declared, when the body is not JSON, or
/// when it names no model.
pub fn read(source: &[u8], content_length: usize) -> (r: Result<(Vec<u8>, String), Failure>)
    ensures
        content_length > MAX_BODY_BYTES ==> (r matches Err(f) && f is Unavailable && failure_text(
            f,
        ) == too_large_text(content_length as nat)),
        content_length <= MAX_BODY_BYTES && source@.len() < content_length ==> (r matches Err(f)
            && f is Unavailable && failure_text(f) == ended_text(
            content_length as nat,
            short_read_text(),
        )),
        content_length <= MAX_BODY_BYTES && source@.len() >= content_length ==> match routed(
            source@.take(content_length as int),
        ) {
            Ok(m) => r matches Ok((bytes, model)) && bytes@ == source@.take(content_length as int)
                && model@ == m,
            Err(why) => r matches Err(f) && f is Unavailable && failure_text(f) == why,
        },
{
    if let Err(f) = check_length(content_length) {
        return Err(f);
    }
    if source.len() < content_length {
        let mut m = String::from_str("a request body declaring ");
        m.append(decimal_string(content_length as u128).as_str());
        m.append(" bytes ended early: ");
        m.append("failed to fill whole buffer");
        return Err(refused(m));
    }
    let bytes = byte_slice(source, 0, content_length);
    assert(bytes@ == source@.take(content_length as int));
    match model_of(bytes.as_slice()) {
        Ok(model) => Ok((bytes, model)),
        Err(f) => Err(f),
    }
}

} // verus!
