//! Reading a request head within bounds.
//!
//! What a head is read within -- a bound on its bytes, a bound on its lines,
//! and a blank line to end it -- is a rule about each line as it arrives, so
//! it is stated here as a reader that is handed one line at a time. The
//! program that owns the socket reads each line, no longer than
//! [`HeadReader::bound`] allows, and hands it over; [`read`] does the same
//! over bytes already in memory.

use vstd::prelude::*;

use crate::proxy::refusal::{Cause, Refusal};
use crate::text::{decimal, decimal_string};

verus! {

/// How many bytes of head the router will read before refusing.
///
/// A router that read an unbounded head from a socket is a router with a
/// memory bug waiting for a bad client. The limit is generous for a request
/// line and a dozen headers, and far below anything worth allocating for.
pub const MAX_HEAD_BYTES: usize = 65536;

/// How many header lines the router will accept.
pub const MAX_HEADERS: usize = 100;

/// A head being read: the lines so far, and how many bytes they took.
pub struct HeadReader {
    lines: Vec<String>,
    read: usize,
}

/// What a reader has taken so far.
pub struct Progress {
    pub lines: Seq<Seq<char>>,
    pub read: nat,
}

/// A line with every trailing carriage return and line feed taken off.
pub open spec fn without_line_end(s: Seq<char>) -> Seq<char>
    decreases s.len(),
{
    if s.len() > 0 && (s.last() == '\r' || s.last() == '\n') {
        without_line_end(s.drop_last())
    } else {
        s
    }
}

/// A head the router will not read, and why.
pub open spec fn unread_text(reason: Seq<char>) -> Seq<char> {
    "the request head is "@ + reason
}

/// Why a head over the byte bound is refused.
pub open spec fn too_long_text() -> Seq<char> {
    unread_text("longer than "@ + decimal(MAX_HEAD_BYTES as nat) + " bytes"@)
}

/// Why a head over the line bound is refused.
pub open spec fn too_many_text() -> Seq<char> {
    unread_text("more than "@ + decimal(MAX_HEADERS as nat) + " lines"@)
}

/// Why a head that stopped before its blank line is refused.
pub open spec fn ended_text() -> Seq<char> {
    unread_text("ended before its blank line"@)
}

/// What taking one more line does: `Ok(Some(lines))` when it was the blank
/// line that ends the head, `Ok(None)` when there is more to read, and the
/// cause and words of the refusal otherwise.
pub open spec fn step(p: Progress, line: Seq<char>, count: nat) -> Result<
    Option<Seq<Seq<char>>>,
    (Cause, Seq<char>),
> {
    if count == 0 {
        Err((Cause::MalformedRequest, ended_text()))
    } else if without_line_end(line).len() == 0 {
        Ok(Some(p.lines))
    } else if p.lines.len() >= MAX_HEADERS {
        Err((Cause::HeadTooLarge, too_many_text()))
    } else {
        Ok(None)
    }
}

/// A refusal of a head, for this cause and reason.
fn unread(cause: Cause, reason: String) -> (r: Refusal)
    ensures
        r.cause == cause,
        r.message@ == unread_text(reason@),
{
    let mut m = String::from_str("the request head is ");
    m.append(reason.as_str());
    Refusal::new(cause, m)
}

/// A line with its trailing carriage returns and line feeds taken off.
fn line_text(line: &str) -> (r: Vec<char>)
    ensures
        r@ == without_line_end(line@),
{
    let v = crate::text::chars_of(line);
    let mut j = v.len();
    assert(v@.subrange(0, j as int) =~= v@);
    while j > 0 && (v[j - 1] == '\r' || v[j - 1] == '\n')
        invariant
            j <= v.len(),
            without_line_end(v@) == without_line_end(v@.subrange(0, j as int)),
        decreases j,
    {
        assert(v@.subrange(0, j as int).drop_last() =~= v@.subrange(0, j - 1));
        j -= 1;
    }
    crate::text::slice(&v, 0, j)
}

impl HeadReader {
    /// What this reader has taken so far.
    pub closed spec fn progress(&self) -> Progress {
        Progress { lines: self.lines@.map_values(|l: String| l@), read: self.read as nat }
    }

    /// A reader is never past the byte bound.
    pub closed spec fn well_formed(&self) -> bool {
        self.read <= MAX_HEAD_BYTES
    }

    /// A reader that has taken nothing.
    pub fn new() -> (r: Self)
        ensures
            r.progress().lines.len() == 0,
            r.progress().read == 0,
            r.well_formed(),
    {
        let r = HeadReader { lines: Vec::new(), read: 0 };
        assert(r.progress().lines =~= Seq::<Seq<char>>::empty());
        r
    }

    /// How many bytes the next line may take, or the refusal when the head
    /// has already taken all it may. Bounded at the read rather than after
    /// it: checking the length of a line already in memory would be a limit
    /// that allocates whatever it was given before deciding it was too much.
    pub fn bound(&self) -> (r: Result<usize, Refusal>)
        requires
            self.well_formed(),
        ensures
            match r {
                Ok(n) => n == MAX_HEAD_BYTES - self.progress().read && n > 0,
                Err(refusal) => self.progress().read == MAX_HEAD_BYTES && refusal.cause
                    == Cause::HeadTooLarge && refusal.message@ == too_long_text(),
            },
    {
        let remaining = MAX_HEAD_BYTES - self.read;
        if remaining == 0 {
            let mut reason = String::from_str("longer than ");
            reason.append(decimal_string(MAX_HEAD_BYTES as u128).as_str());
            reason.append(" bytes");
            return Err(unread(Cause::HeadTooLarge, reason));
        }
        Ok(remaining)
    }

    /// Takes one line as read, with `count` the bytes reading it took: the
    /// lines when it was the blank line that ends the head, the reader to
    /// hand the next line to, or the refusal.
    pub fn accept(self, line: &str, count: usize) -> (r: Result<Result<Vec<String>, Self>, Refusal>)
        requires
            self.well_formed(),
            count <= MAX_HEAD_BYTES - self.progress().read,
        ensures
            match step(self.progress(), line@, count as nat) {
                Ok(Some(lines)) => r matches Ok(Ok(v)) && v@.map_values(|l: String| l@) == lines,
                Ok(None) => r matches Ok(Err(next)) && next.well_formed()
                    && next.progress().lines == self.progress().lines.push(
                    without_line_end(line@),
                ) && next.progress().read == self.progress().read + count,
                Err((cause, why)) => r matches Err(refusal) && refusal.cause == cause
                    && refusal.message@ == why,
            },
    {
        if count == 0 {
            return Err(unread(Cause::MalformedRequest, String::from_str("ended before its blank line")));
        }
        let kept = line_text(line);
        if kept.len() == 0 {
            return Ok(Ok(self.lines));
        }
        let text = crate::text::string_of(kept.as_slice());
        if self.lines.len() >= MAX_HEADERS {
            let mut reason = String::from_str("more than ");
            reason.append(decimal_string(MAX_HEADERS as u128).as_str());
            reason.append(" lines");
            return Err(unread(Cause::HeadTooLarge, reason));
        }
        let HeadReader { mut lines, read } = self;
        let ghost before = lines@.map_values(|l: String| l@);
        lines.push(text);
        let next = HeadReader { lines, read: read + count };
        assert(next.progress().lines =~= before.push(without_line_end(line@)));
        Ok(Err(next))
    }

    /// Takes one more line as the bytes that arrived, which must be text:
    /// a line that is not UTF-8 is refused as a malformed request, in the
    /// words the standard library gives it, and any other is taken as
    /// [`HeadReader::accept`] takes it.
    pub fn accept_bytes(self, line: &[u8]) -> (r: Result<Result<Vec<String>, Self>, Refusal>)
        requires
            self.well_formed(),
            line@.len() <= MAX_HEAD_BYTES - self.progress().read,
        ensures
            match utf8_text(line@) {
                None => r matches Err(refusal) && refusal.cause == Cause::MalformedRequest
                    && refusal.message@ == unread_text("unreadable: "@ + not_utf8_text()),
                Some(text) => match step(self.progress(), text, line@.len()) {
                    Ok(Some(lines)) => r matches Ok(Ok(v)) && v@.map_values(|l: String| l@) == lines,
                    Ok(None) => r matches Ok(Err(next)) && next.well_formed()
                        && next.progress().lines == self.progress().lines.push(without_line_end(text))
                        && next.progress().read == self.progress().read + line@.len(),
                    Err((cause, why)) => r matches Err(refusal) && refusal.cause == cause
                        && refusal.message@ == why,
                },
            },
    {
        match decode(line) {
            Some(text) => self.accept(text.as_str(), line.len()),
            None => Err(unreadable(false, "stream did not contain valid UTF-8")),
        }
    }
}

/// The refusal for a line that could not be read: a deadline that passed,
/// or anything else, in the words the failed read gave.
pub fn unreadable(timed_out: bool, error: &str) -> (r: Refusal)
    ensures
        r.cause == (if timed_out {
            Cause::RequestTimeout
        } else {
            Cause::MalformedRequest
        }),
        r.message@ == unread_text("unreadable: "@ + error@),
{
    let mut reason = String::from_str("unreadable: ");
    reason.append(error);
    unread(
        if timed_out {
            Cause::RequestTimeout
        } else {
            Cause::MalformedRequest
        },
        reason,
    )
}

/// A failed read, as the standard library reports it.
#[verifier::external_type_specification]
#[verifier::external_body]
pub struct ExIoError(std::io::Error);

/// How a read stopped, as far as a head reader cares.
#[derive(Debug, Clone, Copy, PartialEq, Eq)]
pub enum ReadStop {
    /// The read would have blocked past its deadline.
    WouldBlock,
    /// The read ran out of time.
    TimedOut,
    /// Anything else: the peer went away, or sent something unreadable.
    Other,
}

/// How an error stopped a read: the kind `std::io::Error::kind` reports of
/// it, told apart into the two kinds a deadline takes and everything else.
/// Which kind a given error carries is named, not stated.
pub uninterp spec fn stop_named(error: std::io::Error) -> ReadStop;

/// `std::io::Error::kind`, told apart into the two kinds a deadline takes
/// and everything else, one arm each: the kind the error carries, as
/// [`stop_named`] names it.
#[verifier::external_body]
fn stop_of(error: &std::io::Error) -> (r: ReadStop)
    ensures
        r == stop_named(*error),
{
    match error.kind() {
        std::io::ErrorKind::WouldBlock => ReadStop::WouldBlock,
        std::io::ErrorKind::TimedOut => ReadStop::TimedOut,
        _ => ReadStop::Other,
    }
}

/// Whether a read that stopped this way gave up on a deadline rather than
/// on the peer.
///
/// Two kinds, because the platforms disagree: a read deadline surfaces as
/// `WouldBlock` on the Unix platforms and as `TimedOut` on Windows, and a
/// router that knew only one would report a silent caller as a malformed one
/// on the other.
pub fn is_deadline(stop: ReadStop) -> (b: bool)
    ensures
        b == (stop == ReadStop::WouldBlock || stop == ReadStop::TimedOut),
{
    match stop {
        ReadStop::WouldBlock | ReadStop::TimedOut => true,
        ReadStop::Other => false,
    }
}

/// Whether a socket read gave up on a deadline rather than on the peer:
/// its error is of the kind `WouldBlock` or `TimedOut`.
pub fn timed_out(error: &std::io::Error) -> (b: bool)
    ensures
        b == (stop_named(*error) == ReadStop::WouldBlock || stop_named(*error) == ReadStop::TimedOut),
{
    is_deadline(stop_of(error))
}

/// The text a run of bytes is in UTF-8, or `None` when it is not UTF-8.
pub uninterp spec fn utf8_text(bytes: Seq<u8>) -> Option<Seq<char>>;

/// `String::from_utf8`: the text these bytes spell, or `None` when they are
/// not UTF-8. What that text is, is named rather than stated.
#[verifier::external_body]
fn decode(bytes: &[u8]) -> (r: Option<String>)
    ensures
        match r {
            Some(s) => utf8_text(bytes@) == Some(s@),
            None => utf8_text(bytes@) is None,
        },
{
    String::from_utf8(bytes.to_vec()).ok()
}

/// Where a line read from `pos`, no longer than `bound` bytes, ends: just
/// past the first line feed, or at the bound, or at the end of the source.
pub open spec fn line_end(source: Seq<u8>, pos: nat, bound: nat) -> nat
    decreases bound,
{
    if bound == 0 || pos >= source.len() {
        pos
    } else if source[pos as int] == 10 {
        pos + 1
    } else {
        line_end(source, pos + 1, (bound - 1) as nat)
    }
}

/// A line read from within a source ends within it, after where it began
/// and no further than the bound allows.
pub proof fn lemma_line_end(source: Seq<u8>, pos: nat, bound: nat)
    requires
        pos <= source.len(),
    ensures
        pos <= line_end(source, pos, bound) <= source.len(),
        line_end(source, pos, bound) <= pos + bound,
    decreases bound,
{
    if !(bound == 0 || pos >= source.len()) && source[pos as int] != 10 {
        lemma_line_end(source, pos + 1, (bound - 1) as nat);
    }
}

/// The message the standard library gives a line that is not UTF-8.
pub open spec fn not_utf8_text() -> Seq<char> {
    "stream did not contain valid UTF-8"@
}

/// What reading a head from these bytes gives, from `pos` on, with `p`
/// taken already: each line no longer than the bytes the bound leaves.
pub open spec fn read_from(source: Seq<u8>, pos: nat, p: Progress) -> Result<
    Seq<Seq<char>>,
    (Cause, Seq<char>),
>
    decreases source.len() - pos,
{
    if pos > source.len() || p.read > MAX_HEAD_BYTES {
        Err((Cause::MalformedRequest, ended_text()))
    } else if p.read == MAX_HEAD_BYTES {
        Err((Cause::HeadTooLarge, too_long_text()))
    } else {
        let end = line_end(source, pos, (MAX_HEAD_BYTES - p.read) as nat);
        proof {
            lemma_line_end(source, pos, (MAX_HEAD_BYTES - p.read) as nat);
        }
        match utf8_text(source.subrange(pos as int, end as int)) {
            None => Err((Cause::MalformedRequest, unread_text("unreadable: "@ + not_utf8_text()))),
            Some(line) => match step(p, line, (end - pos) as nat) {
                Ok(Some(lines)) => Ok(lines),
                Ok(None) => read_from(
                    source,
                    end,
                    Progress {
                        lines: p.lines.push(without_line_end(line)),
                        read: (p.read + (end - pos)) as nat,
                    },
                ),
                Err(e) => Err(e),
            },
        }
    }
}

/// What a head read from these bytes is.
pub open spec fn head_lines(source: Seq<u8>) -> Result<Seq<Seq<char>>, (Cause, Seq<char>)> {
    read_from(source, 0, Progress { lines: Seq::empty(), read: 0 })
}

/// Reads the request line and headers from bytes already in memory, ending
/// at the first blank line, each line no longer than the bound leaves.
///
/// # Errors
///
/// Returns a [`Refusal`] when the head exceeds either bound, when a line is
/// not text, or when the bytes end first.
pub fn read(source: &[u8]) -> (r: Result<Vec<String>, Refusal>)
    ensures
        match head_lines(source@) {
            Ok(lines) => r matches Ok(v) && v@.map_values(|l: String| l@) == lines,
            Err((cause, why)) => r matches Err(refusal) && refusal.cause == cause
                && refusal.message@ == why,
        },
{
    let mut reader = HeadReader::new();
    let mut pos: usize = 0;
    assert(reader.progress().lines =~= Seq::<Seq<char>>::empty());
    assert(reader.progress() == Progress { lines: Seq::<Seq<char>>::empty(), read: 0 });
    loop
        invariant
            pos <= source.len(),
            reader.well_formed(),
            head_lines(source@) == read_from(source@, pos as nat, reader.progress()),
        decreases source.len() - pos,
    {
        let bound = match reader.bound() {
            Ok(n) => n,
            Err(refusal) => {
                return Err(refusal);
            },
        };
        let mut end = pos;
        let mut done = false;
        while !done && end < source.len() && end - pos < bound
            invariant
                pos <= end <= source.len(),
                end - pos <= bound,
                done ==> line_end(source@, pos as nat, bound as nat) == end,
                !done ==> line_end(source@, pos as nat, bound as nat) == line_end(
                    source@,
                    end as nat,
                    (bound - (end - pos)) as nat,
                ),
            decreases source.len() - end,
        {
            if source[end] == 10 {
                done = true;
            }
            end = end + 1;
        }
        proof {
            lemma_line_end(source@, pos as nat, bound as nat);
        }
        assert(line_end(source@, pos as nat, bound as nat) == end);
        let count = end - pos;
        let bytes = crate::text_bytes::byte_slice(source, pos, end);
        let line = match decode(bytes.as_slice()) {
            Some(t) => t,
            None => {
                return Err(unreadable(false, "stream did not contain valid UTF-8"));
            },
        };
        match reader.accept(line.as_str(), count) {
            Ok(Ok(lines)) => {
                return Ok(lines);
            },
            Ok(Err(next)) => {
                reader = next;
            },
            Err(refusal) => {
                return Err(refusal);
            },
        }
        pos = end;
    }
}

} // verus!
