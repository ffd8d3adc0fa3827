//! Which answer a request has earned, decided before a byte of any child's
//! response is forwarded -- which is what makes a status still possible.
//!
//! The program reads the head, asks [`plan`] what to do, and does it. What
//! this decides is every refusal a request can earn from its head alone, and
//! which of the router's own answers it gets; what that looks like on the
//! wire is `reply`'s business.

use vstd::prelude::*;

use super::body::{
    ended_text, model_field, no_model_text, parse_model, short_read_text, too_large_text,
    MAX_BODY_BYTES,
};
use super::endpoint::{allowed_methods, allowed_text, Endpoint, Route};
use super::head::{Declared, Head, HeadView, Length};
use super::refusal::{Cause, Refusal};
use crate::catalog::capability::accepted;
use crate::catalog::capability::generating;
use crate::catalog::Entry;
use crate::json::{quote, quoted, str_array, string_array};
use crate::text::{chars_of, decimal, decimal_string, join, joined_with, same};

verus! {

/// What a request is answered with.
pub enum Plan {
    /// Refused, for this cause and in these words.
    Refuse(Refusal),
    /// A preflight: what the endpoint accepts.
    Preflight,
    /// The `OpenAI` listing, its head alone when `HEAD` asked.
    Listing { head_only: bool },
    /// The llama.cpp catalogue, its head alone when `HEAD` asked.
    Catalogue { head_only: bool },
    /// The server's own settings, its head alone when `HEAD` asked.
    Properties { head_only: bool },
    /// The entry asked to give up its slot.
    GiveUp { id: String, head_only: bool },
    /// A child, for the entry the path names.
    Dedicated { id: String },
    /// A child, for the entry the body names, once this many bytes of body
    /// are read.
    Generic { declared: usize },
}

/// Why a chunked request is refused, named as precisely as the request
/// allows.
pub open spec fn chunked_about(r: Route) -> Seq<char> {
    match r {
        Route::Dedicated { id, .. } => "entry '"@ + id + "'"@,
        Route::Generic { .. } => "the generic endpoint"@,
        Route::Listing => "the model listing"@,
        Route::Catalogue => "the catalogue"@,
        Route::Properties => "the server's properties"@,
        Route::Residency { id } => "the residency of '"@ + id + "'"@,
    }
}

/// The refusal for framing this router does not implement, or cannot read,
/// if the head has any.
pub open spec fn framing_of(h: HeadView) -> Option<(Cause, Seq<char>)> {
    if h.chunked {
        Some(
            (
                Cause::ChunkedBody,
                chunked_about(h.route)
                    + ": this router does not implement chunked request bodies; send a body with a Content-Length"@,
            ),
        )
    } else {
        match h.length {
            Declared::Malformed(v) => Some(
                (
                    Cause::MalformedLength,
                    "'Content-Length: "@ + v
                        + "' is not a length this router can read; send a byte count, or no such header at all"@,
                ),
            ),
            _ => None,
        }
    }
}

/// Why the generic endpoint refuses a request that declares no body.
pub open spec fn length_required_text() -> Seq<char> {
    "the generic endpoint routes on the 'model' field of the request body, so it needs one and a Content-Length that declares it; or address a model directly at /models/<model>/<path>"@
}

/// How long a body the generic endpoint may read, or the refusal.
pub open spec fn declared_of(length: Declared) -> Result<usize, (Cause, Seq<char>)> {
    match length {
        Declared::Given(n) => if n > MAX_BODY_BYTES {
            Err(
                (
                    Cause::BodyTooLarge,
                    "a request body of "@ + decimal(n as nat) + " bytes is larger than the "@
                        + decimal(MAX_BODY_BYTES as nat) + " this router will read"@,
                ),
            )
        } else {
            Ok(n)
        },
        _ => Err((Cause::LengthRequired, length_required_text())),
    }
}

/// A plan as its texts.
pub enum Course {
    Refuse(Cause, Seq<char>),
    Preflight,
    Listing(bool),
    Catalogue(bool),
    Properties(bool),
    GiveUp(Seq<char>, bool),
    Dedicated(Seq<char>),
    Generic(usize),
}

impl View for Plan {
    type V = Course;

    open spec fn view(&self) -> Course {
        match self {
            Plan::Refuse(r) => Course::Refuse(r.cause, r.message@),
            Plan::Preflight => Course::Preflight,
            Plan::Listing { head_only } => Course::Listing(*head_only),
            Plan::Catalogue { head_only } => Course::Catalogue(*head_only),
            Plan::Properties { head_only } => Course::Properties(*head_only),
            Plan::GiveUp { id, head_only } => Course::GiveUp(id@, *head_only),
            Plan::Dedicated { id } => Course::Dedicated(id@),
            Plan::Generic { declared } => Course::Generic(*declared),
        }
    }
}

/// Which answer a head has earned.
///
/// A preflight first: it asks what is allowed, which the router knows, and
/// it has no body whose framing matters. Then a method no model can be asked
/// anything with, before anything could start a child. Then framing, before
/// anything is read, looked up or started. Then the router's own answers,
/// before a body is read: saying what could be served is never a reason to
/// start serving it. Only then a child, by the path or by the body.
pub open spec fn course_of(h: HeadView) -> Course {
    let head_only = h.method == "HEAD"@;
    if h.method == "OPTIONS"@ {
        Course::Preflight
    } else if !allowed_methods(h.route).contains(h.method) {
        Course::Refuse(
            Cause::MethodNotAllowed(""),
            h.method + " is not a method this endpoint answers; it accepts "@ + allowed_text(
                h.route,
            ),
        )
    } else {
        match framing_of(h) {
            Some((cause, why)) => Course::Refuse(cause, why),
            None => match h.route {
                Route::Listing => Course::Listing(head_only),
                Route::Catalogue => Course::Catalogue(head_only),
                Route::Properties => Course::Properties(head_only),
                Route::Residency { id } => Course::GiveUp(id, head_only),
                Route::Dedicated { id, .. } => Course::Dedicated(id),
                Route::Generic { .. } => match declared_of(h.length) {
                    Ok(n) => Course::Generic(n),
                    Err((cause, why)) => Course::Refuse(cause, why),
                },
            },
        }
    }
}

/// A `HEAD` request for the listing, the catalogue or the properties is
/// answered with the headers alone, a `GET` with the body too: whichever of
/// the router's own answers a head earns says it is headers-only exactly
/// when the method is `HEAD`, and a `HEAD` whose framing passes always earns
/// its answer.
pub proof fn law_head_answered_without_body(h: HeadView)
    ensures
        course_of(h) matches Course::Listing(b) ==> b == (h.method == "HEAD"@),
        course_of(h) matches Course::Catalogue(b) ==> b == (h.method == "HEAD"@),
        course_of(h) matches Course::Properties(b) ==> b == (h.method == "HEAD"@),
        course_of(h) matches Course::GiveUp(_, b) ==> b == (h.method == "HEAD"@),
        h.method == "HEAD"@ && framing_of(h) is None ==> (h.route is Listing ==> course_of(h) == Course::Listing(true))
            && (h.route is Catalogue ==> course_of(h) == Course::Catalogue(true))
            && (h.route is Properties ==> course_of(h) == Course::Properties(true)),
        h.method == "GET"@ && framing_of(h) is None ==> (h.route is Listing ==> course_of(h) == Course::Listing(false))
            && (h.route is Catalogue ==> course_of(h) == Course::Catalogue(false))
            && (h.route is Properties ==> course_of(h) == Course::Properties(false)),
{
    reveal_strlit("HEAD");
    reveal_strlit("GET");
    reveal_strlit("OPTIONS");
    let l = allowed_methods(h.route);
    if h.route is Listing || h.route is Catalogue || h.route is Properties {
        assert(l[1] == "HEAD"@);
        assert(l[0] == "GET"@);
    }
}

/// A preflight is answered as one whatever the endpoint and framing; a
/// method the endpoint does not answer is refused as such before anything
/// else is looked at; and only a method the endpoint answers, with framing
/// that passes, earns the router's own answers or a child.
pub proof fn law_methods_first(h: HeadView)
    ensures
        h.method == "OPTIONS"@ ==> course_of(h) == Course::Preflight,
        h.method != "OPTIONS"@ && !allowed_methods(h.route).contains(h.method) ==> course_of(h) matches Course::Refuse(
            Cause::MethodNotAllowed(_),
            _,
        ),
        !(course_of(h) is Refuse) && !(course_of(h) is Preflight) ==> allowed_methods(h.route).contains(h.method)
            && framing_of(h) is None,
{
}

/// Whether a plan is the one a head has earned: the same course, and for a
/// method refused, the cause carries the methods the endpoint answers.
pub open spec fn planned(p: Plan, h: HeadView) -> bool {
    match (p@, course_of(h)) {
        (Course::Refuse(c, m), Course::Refuse(c2, m2)) => m == m2 && match c2 {
            Cause::MethodNotAllowed(_) => c matches Cause::MethodNotAllowed(a) && a@
                == allowed_text(h.route),
            _ => c == c2,
        },
        (a, b) => a == b,
    }
}

/// Refuses the framing this router does not implement, or cannot read.
///
/// Chunked bodies are refused rather than guessed at. A length that will not
/// parse is refused rather than defaulted to zero, which was worse: the child
/// would be left waiting for a body nobody was going to send.
pub fn framing(request: &Head) -> (r: Result<(), Refusal>)
    ensures
        match framing_of(request@) {
            None => r is Ok,
            Some((cause, why)) => r matches Err(refusal) && refusal.cause == cause
                && refusal.message@ == why,
        },
{
    if request.chunked {
        let about = match &request.endpoint {
            Endpoint::Dedicated { id, .. } => {
                let mut s = String::from_str("entry '");
                s.append(id.as_str());
                s.append("'");
                s
            },
            Endpoint::Generic { .. } => String::from_str("the generic endpoint"),
            Endpoint::Listing => String::from_str("the model listing"),
            Endpoint::Catalogue => String::from_str("the catalogue"),
            Endpoint::Properties => String::from_str("the server's properties"),
            Endpoint::Residency { id } => {
                let mut s = String::from_str("the residency of '");
                s.append(id.as_str());
                s.append("'");
                s
            },
        };
        let mut m = about;
        m.append(
            ": this router does not implement chunked request bodies; send a body with a Content-Length",
        );
        return Err(Refusal::new(Cause::ChunkedBody, m));
    }
    if let Length::Malformed(value) = &request.length {
        let mut m = String::from_str("'Content-Length: ");
        m.append(value.as_str());
        m.append("' is not a length this router can read; send a byte count, or no such header at all");
        return Err(Refusal::new(Cause::MalformedLength, m));
    }
    Ok(())
}

/// How long a body the generic endpoint is about to read, if it may.
///
/// Only this endpoint reads a body, because only this endpoint has nothing
/// else to route on -- so a request with no declared body is one it can never
/// answer. The bound is enforced here, before reading: taking the memory and
/// then objecting to it is the bug the bound exists to prevent.
pub fn declared_body(length: &Length) -> (r: Result<usize, Refusal>)
    ensures
        match declared_of(length@) {
            Ok(n) => r == Ok::<usize, Refusal>(n),
            Err((cause, why)) => r matches Err(refusal) && refusal.cause == cause
                && refusal.message@ == why,
        },
{
    match length {
        Length::Given(declared) => {
            if *declared > MAX_BODY_BYTES {
                let mut m = String::from_str("a request body of ");
                m.append(decimal_string(*declared as u128).as_str());
                m.append(" bytes is larger than the ");
                m.append(decimal_string(MAX_BODY_BYTES as u128).as_str());
                m.append(" this router will read");
                return Err(Refusal::new(Cause::BodyTooLarge, m));
            }
            Ok(*declared)
        },
        _ => Err(
            Refusal::new(
                Cause::LengthRequired,
                String::from_str(
                    "the generic endpoint routes on the 'model' field of the request body, so it needs one and a Content-Length that declares it; or address a model directly at /models/<model>/<path>",
                ),
            ),
        ),
    }
}

/// Which answer a request has earned, from its head alone.
pub fn plan(request: &Head) -> (r: Plan)
    ensures
        planned(r, request@),
{
    let method = chars_of(request.method.as_str());
    if same(&method, &chars_of("OPTIONS")) {
        return Plan::Preflight;
    }
    if !request.endpoint.allows(request.method.as_str()) {
        let allowed = request.endpoint.allowed();
        let mut m = String::from_str(request.method.as_str());
        m.append(" is not a method this endpoint answers; it accepts ");
        m.append(allowed);
        return Plan::Refuse(Refusal::new(Cause::MethodNotAllowed(allowed), m));
    }
    if let Err(refusal) = framing(request) {
        return Plan::Refuse(refusal);
    }
    let head_only = same(&method, &chars_of("HEAD"));
    match &request.endpoint {
        Endpoint::Listing => Plan::Listing { head_only },
        Endpoint::Catalogue => Plan::Catalogue { head_only },
        Endpoint::Properties => Plan::Properties { head_only },
        Endpoint::Residency { id } => Plan::GiveUp { id: id.clone(), head_only },
        Endpoint::Dedicated { id, .. } => Plan::Dedicated { id: id.clone() },
        Endpoint::Generic { .. } => match declared_body(&request.length) {
            Ok(n) => Plan::Generic { declared: n },
            Err(refusal) => Plan::Refuse(refusal),
        },
    }
}

/// What the generic endpoint makes of a body that declared `declared`
/// bytes, of which `source` arrived: the model it names, or the refusal,
/// each with the cause a client can act on.
pub open spec fn body_course(source: Seq<u8>, declared: nat) -> Result<Seq<char>, (Cause, Seq<char>)> {
    if declared > MAX_BODY_BYTES {
        Err((Cause::BodyTooLarge, too_large_text(declared)))
    } else if source.len() < declared {
        Err((Cause::BodyIncomplete, ended_text(declared, short_read_text())))
    } else {
        match model_field(source.take(declared as int)) {
            Err(e) => Err((Cause::BodyNotJson, "a request body that is not JSON: "@ + e)),
            Ok(None) => Err((Cause::ModelMissing, no_model_text())),
            Ok(Some(m)) => Ok(m),
        }
    }
}

/// The body the generic endpoint routes on, and the model it names: the
/// declared bytes of what arrived, forwarded as they are.
///
/// # Errors
///
/// Returns a [`Refusal`] when the declaration is over the bound, when fewer
/// bytes arrived than were declared, when they are not JSON, or when they
/// name no model.
pub fn generic_body(source: &[u8], declared: usize) -> (r: Result<(Vec<u8>, String), Refusal>)
    ensures
        match body_course(source@, declared as nat) {
            Ok(m) => r matches Ok((bytes, model)) && bytes@ == source@.take(declared as int)
                && model@ == m,
            Err((cause, why)) => r matches Err(refusal) && refusal.cause == cause
                && refusal.message@ == why,
        },
{
    if declared > MAX_BODY_BYTES {
        let mut m = String::from_str("a request body of ");
        m.append(decimal_string(declared as u128).as_str());
        m.append(" bytes is larger than the ");
        m.append(decimal_string(MAX_BODY_BYTES as u128).as_str());
        m.append(" this router will read");
        return Err(Refusal::new(Cause::BodyTooLarge, m));
    }
    if source.len() < declared {
        let mut m = String::from_str("a request body declaring ");
        m.append(decimal_string(declared as u128).as_str());
        m.append(" bytes ended early: ");
        m.append("failed to fill whole buffer");
        return Err(Refusal::new(Cause::BodyIncomplete, m));
    }
    let bytes = crate::text_bytes::byte_slice(source, 0, declared);
    assert(bytes@ == source@.take(declared as int));
    match parse_model(bytes.as_slice()) {
        Err(e) => {
            let mut m = String::from_str("a request body that is not JSON: ");
            m.append(e.as_str());
            Err(Refusal::new(Cause::BodyNotJson, m))
        },
        Ok(None) => Err(
            Refusal::new(
                Cause::ModelMissing,
                String::from_str(
                    "the generic endpoint routes on the 'model' field of the request body, and this request carries none; name a model there, or address a model directly at /models/<model>/<path>",
                ),
            ),
        ),
        Ok(Some(m)) => Ok((bytes, m)),
    }
}

/// The identifiers a list of entries carries, joined for a refusal.
pub open spec fn known_text(entries: Seq<Entry>) -> Seq<char> {
    joined_with(entries.map_values(|e: Entry| e.id@), ", "@)
}

/// What the catalog carries, for a refusal that can be acted on.
pub fn known(entries: &[Entry]) -> (r: String)
    ensures
        r@ == known_text(entries@),
{
    let mut ids: Vec<String> = Vec::new();
    let mut i: usize = 0;
    while i < entries.len()
        invariant
            i <= entries.len(),
            ids@.map_values(|s: String| s@) == entries@.subrange(0, i as int).map_values(
                |e: Entry| e.id@,
            ),
        decreases entries.len() - i,
    {
        let ghost before = ids@.map_values(|s: String| s@);
        ids.push(entries[i].id.clone());
        assert(ids@.map_values(|s: String| s@) =~= before.push(entries@[i as int].id@));
        assert(entries@.subrange(0, i + 1).map_values(|e: Entry| e.id@) =~= entries@.subrange(
            0,
            i as int,
        ).map_values(|e: Entry| e.id@).push(entries@[i as int].id@));
        i += 1;
    }
    assert(entries@.subrange(0, entries.len() as int) =~= entries@);
    join(&ids, ", ")
}

/// The refusal for a model the catalog does not carry.
pub fn not_found(wanted: &str, entries: &[Entry]) -> (r: Refusal)
    ensures
        r.cause == Cause::ModelNotFound,
        r.message@ == "no model called '"@ + wanted@ + "'; this catalog carries: "@ + known_text(
            entries@,
        ),
{
    let mut m = String::from_str("no model called '");
    m.append(wanted);
    m.append("'; this catalog carries: ");
    m.append(known(entries).as_str());
    Refusal::new(Cause::ModelNotFound, m)
}

/// The refusal for giving up a slot the catalog has no entry for.
pub fn no_entry_to_unload(id: &str) -> (r: Refusal)
    ensures
        r.cause == Cause::ModelNotFound,
        r.message@ == "no entry called '"@ + id@ + "' to unload"@,
{
    let mut m = String::from_str("no entry called '");
    m.append(id);
    m.append("' to unload");
    Refusal::new(Cause::ModelNotFound, m)
}

/// The refusal for giving up a slot somebody is reading from: taking it
/// would cut off a request somebody is waiting on.
pub fn entry_busy(id: &str) -> (r: Refusal)
    ensures
        r.cause == Cause::EntryBusy,
        r.message@ == "'"@ + id@ + "' is being read from, so its slot was left as it was"@,
{
    let mut m = String::from_str("'");
    m.append(id);
    m.append("' is being read from, so its slot was left as it was");
    Refusal::new(Cause::EntryBusy, m)
}

/// One entry of the llama.cpp catalogue, as a client reads it in router
/// mode: whether it is loaded, its window, what it can be sent, what it was
/// estimated at, and what it was measured holding.
pub struct CatalogueRow {
    pub id: String,
    pub loaded: bool,
    pub context_size: u32,
    pub accepts: Vec<&'static str>,
    pub declared_mib: u32,
    pub held_mib: Option<u64>,
}

/// What the last pair naming an identifier pairs it with, if any does.
pub open spec fn held_for(held: Seq<(String, Option<u64>)>, id: Seq<char>) -> Option<u64>
    decreases held.len(),
{
    if held.len() == 0 {
        None
    } else if held.last().0@ == id {
        held.last().1
    } else {
        held_for(held.drop_last(), id)
    }
}

/// The entries that can hold a conversation, in catalog order.
pub open spec fn conversational(entries: Seq<Entry>) -> Seq<Entry>
    decreases entries.len(),
{
    if entries.len() == 0 {
        Seq::empty()
    } else if generating(entries.last()) {
        conversational(entries.drop_last()).push(entries.last())
    } else {
        conversational(entries.drop_last())
    }
}

/// Whether a row says what the catalogue says of an entry.
pub open spec fn row_of(
    row: CatalogueRow,
    e: Entry,
    loaded: Seq<String>,
    held: Seq<(String, Option<u64>)>,
) -> bool {
    &&& row.id@ == e.id@
    &&& row.loaded == crate::catalog::names(loaded, e.id@)
    &&& row.context_size == e.context_size
    &&& row.accepts@.map_values(|s: &str| s@) == accepted(e)
    &&& row.declared_mib == e.memory_estimate_mib
    &&& row.held_mib == held_for(held, e.id@)
}

/// What one slot held, as its last pair says.
fn held_of(held: &[(String, Option<u64>)], id: &str) -> (r: Option<u64>)
    ensures
        r == held_for(held@, id@),
{
    let wanted = chars_of(id);
    let mut i = held.len();
    assert(held@.subrange(0, i as int) =~= held@);
    while i > 0
        invariant
            i <= held.len(),
            wanted@ == id@,
            held_for(held@, id@) == held_for(held@.subrange(0, i as int), id@),
        decreases i,
    {
        assert(held@.subrange(0, i as int).drop_last() =~= held@.subrange(0, i - 1));
        if same(&chars_of(held[i - 1].0.as_str()), &wanted) {
            return held[i - 1].1;
        }
        i -= 1;
    }
    None
}

/// Every entry that can hold a conversation, with whether it is loaded and
/// what it was measured holding.
///
/// Entries that generate nothing are left out. A client reading this surface
/// is choosing something to talk to, and an embedding server offered here is
/// a selection that can only fail. The `OpenAI` listing still carries them.
pub fn catalogue_rows(
    entries: &[Entry],
    loaded: &Vec<String>,
    held: &[(String, Option<u64>)],
) -> (r: Vec<CatalogueRow>)
    ensures
        r@.len() == conversational(entries@).len(),
        forall|i: int|
            0 <= i < r@.len() ==> row_of(
                #[trigger] r@[i],
                conversational(entries@)[i],
                loaded@,
                held@,
            ),
{
    let mut rows: Vec<CatalogueRow> = Vec::new();
    let mut i: usize = 0;
    while i < entries.len()
        invariant
            i <= entries.len(),
            rows@.len() == conversational(entries@.subrange(0, i as int)).len(),
            forall|k: int|
                0 <= k < rows@.len() ==> row_of(
                    #[trigger] rows@[k],
                    conversational(entries@.subrange(0, i as int))[k],
                    loaded@,
                    held@,
                ),
        decreases entries.len() - i,
    {
        assert(entries@.subrange(0, i + 1).drop_last() =~= entries@.subrange(0, i as int));
        let e = &entries[i];
        if e.generates() {
            let row = CatalogueRow {
                id: e.id.clone(),
                loaded: crate::catalog::named(loaded, e.id.as_str()),
                context_size: e.context_size,
                accepts: e.accepts(),
                declared_mib: e.memory_estimate_mib,
                held_mib: held_of(held, e.id.as_str()),
            };
            rows.push(row);
        }
        i += 1;
    }
    assert(entries@.subrange(0, entries.len() as int) =~= entries@);
    rows
}

/// A figure a row may not have: the number, or JSON's `null`.
pub open spec fn number_or_null(n: Option<u64>) -> Seq<char> {
    match n {
        Some(v) => decimal(v as nat),
        None => "null"@,
    }
}

/// One row of the catalogue as a llama.cpp client reads it in router mode,
/// its members in key order.
pub open spec fn row_json(row: CatalogueRow) -> Seq<char> {
    "{\"architecture\":{\"input_modalities\":"@ + string_array(row.accepts@.map_values(|s: &str| s@))
        + "},\"id\":"@ + quoted(row.id@) + ",\"memory\":{\"declared_mib\":"@ + decimal(
        row.declared_mib as nat,
    ) + ",\"held_mib\":"@ + number_or_null(row.held_mib) + "},\"meta\":{\"n_ctx\":"@ + decimal(
        row.context_size as nat,
    ) + "},\"object\":\"model\",\"owned_by\":\"maestro-llamacpp\",\"source\":\"preset\",\"status\":{\"failed\":false,\"value\":"@
        + (if row.loaded {
        "\"loaded\""@
    } else {
        "\"unloaded\""@
    }) + "}}"@
}

/// The catalogue of these rows: `{"data":[..],"object":"list"}`.
pub open spec fn catalogue_json(rows: Seq<CatalogueRow>) -> Seq<char> {
    "{\"data\":["@ + joined_with(rows.map_values(|r: CatalogueRow| row_json(r)), ","@)
        + "],\"object\":\"list\"}"@
}

/// One row as JSON text.
fn write_row(row: &CatalogueRow) -> (r: String)
    ensures
        r@ == row_json(*row),
{
    let mut r = String::from_str("{\"architecture\":{\"input_modalities\":");
    r.append(str_array(row.accepts.as_slice()).as_str());
    r.append("},\"id\":");
    r.append(quote(row.id.as_str()).as_str());
    r.append(",\"memory\":{\"declared_mib\":");
    r.append(decimal_string(row.declared_mib as u128).as_str());
    r.append(",\"held_mib\":");
    match row.held_mib {
        Some(v) => r.append(decimal_string(v as u128).as_str()),
        None => r.append("null"),
    }
    r.append("},\"meta\":{\"n_ctx\":");
    r.append(decimal_string(row.context_size as u128).as_str());
    r.append(
        "},\"object\":\"model\",\"owned_by\":\"maestro-llamacpp\",\"source\":\"preset\",\"status\":{\"failed\":false,\"value\":",
    );
    if row.loaded {
        r.append("\"loaded\"");
    } else {
        r.append("\"unloaded\"");
    }
    r.append("}}");
    r
}

/// The catalogue as JSON text, its rows in order.
pub fn catalogue(rows: &Vec<CatalogueRow>) -> (r: String)
    ensures
        r@ == catalogue_json(rows@),
{
    let mut parts: Vec<String> = Vec::new();
    let mut i: usize = 0;
    while i < rows.len()
        invariant
            i <= rows.len(),
            parts@.map_values(|p: String| p@) == rows@.subrange(0, i as int).map_values(
                |r: CatalogueRow| row_json(r),
            ),
        decreases rows.len() - i,
    {
        let ghost before = parts@.map_values(|p: String| p@);
        parts.push(write_row(&rows[i]));
        assert(parts@.map_values(|p: String| p@) =~= before.push(row_json(rows@[i as int])));
        assert(rows@.subrange(0, i + 1).map_values(|r: CatalogueRow| row_json(r)) =~= rows@.subrange(
            0,
            i as int,
        ).map_values(|r: CatalogueRow| row_json(r)).push(row_json(rows@[i as int])));
        i += 1;
    }
    assert(rows@.subrange(0, rows.len() as int) =~= rows@);
    let mut r = String::from_str("{\"data\":[");
    r.append(join(&parts, ",").as_str());
    r.append("],\"object\":\"list\"}");
    r
}

/// What an entry whose slot was given up says:
/// `{"id":..,"object":"model","status":{"failed":false,"value":"unloaded"}}`.
pub open spec fn unloaded_json(id: Seq<char>) -> Seq<char> {
    "{\"id\":"@ + quoted(id) + ",\"object\":\"model\",\"status\":{\"failed\":false,\"value\":\"unloaded\"}}"@
}

/// What an entry whose slot was given up says, as JSON text.
pub fn unloaded(id: &str) -> (r: String)
    ensures
        r@ == unloaded_json(id@),
{
    let mut r = String::from_str("{\"id\":");
    r.append(quote(id).as_str());
    r.append(",\"object\":\"model\",\"status\":{\"failed\":false,\"value\":\"unloaded\"}}");
    r
}

/// What the server does, as the one field a client reads from it: a model
/// that is not running starts on request.
pub fn properties() -> (r: String)
    ensures
        r@ == "{\"models_autoload\":true}"@,
{
    String::from_str("{\"models_autoload\":true}")
}

} // verus!
