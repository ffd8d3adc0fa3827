//! What an entry actually costs, and the estimate a measurement supports.
//!
//! A catalog's `memory_estimate_mib` is a claim. The bench command loads one
//! entry at a time, asks the card what it took, and reports; the arithmetic
//! of what a reading supports, which endpoint an entry answers at, the fixed
//! work it is timed on and the date a recommendation carries live here.

use vstd::prelude::*;

use crate::catalog::flags::Flags;
use crate::catalog::Entry;
use crate::catalog::served::{is_switched_on, switched_on};
use crate::json::{quote, quoted, string_array, strings_array};
use crate::memory::{free_of, DeviceMemory};
use crate::text::{decimal, decimal_string, padded, padded_chars, push_string, string_of, strings};
use crate::time::Span;

verus! {

/// What one entry turned out to cost.
#[derive(Debug, Clone)]
pub struct Measurement {
    /// The entry measured.
    pub id: String,
    /// What the catalog claimed, for the comparison that is the whole point.
    pub declared_mib: u32,
    /// What the card said this entry's process held, when a card could be
    /// read.
    pub measured_mib: Option<u32>,
    /// How long it took to answer its first health check.
    pub load: Span,
}

/// Whether an entry is one a run measures: every entry, or the one named.
pub open spec fn picks(e: Entry, only: Option<Seq<char>>) -> bool {
    match only {
        None => true,
        Some(id) => e.id@ == id,
    }
}

/// The positions of the entries a run measures, in catalog order.
pub open spec fn selected(entries: Seq<Entry>, only: Option<Seq<char>>) -> Seq<nat>
    decreases entries.len(),
{
    if entries.len() == 0 {
        Seq::empty()
    } else if picks(entries.last(), only) {
        selected(entries.drop_last(), only).push((entries.len() - 1) as nat)
    } else {
        selected(entries.drop_last(), only)
    }
}

/// What a name, if one was given, reads as.
pub open spec fn name_view(only: Option<&str>) -> Option<Seq<char>> {
    match only {
        Some(id) => Some(id@),
        None => None,
    }
}

/// Why a run measures nothing: the catalog carries no entry of that name.
pub open spec fn no_entry_text(only: Option<Seq<char>>, catalog: Seq<char>) -> Seq<char> {
    "no entry called '"@ + match only {
        Some(id) => id,
        None => Seq::empty(),
    } + "' in "@ + catalog
}

/// The positions of the entries a run measures -- every entry, or the one
/// named -- in catalog order.
///
/// # Errors
///
/// Returns why not when that is none at all, naming the catalog.
pub fn selection(entries: &[Entry], only: Option<&str>, catalog: &str) -> (r: Result<Vec<usize>, String>)
    ensures
        match r {
            Ok(v) => v@.map_values(|i: usize| i as nat) == selected(entries@, name_view(only)) && v@.len() > 0,
            Err(m) => selected(entries@, name_view(only)).len() == 0 && m@ == no_entry_text(name_view(only), catalog@),
        },
{
    let ghost wanted = name_view(only);
    let mut picked: Vec<usize> = Vec::new();
    let mut i: usize = 0;
    assert(entries@.subrange(0, 0) =~= Seq::<Entry>::empty());
    while i < entries.len()
        invariant
            i <= entries.len(),
            wanted == name_view(only),
            picked@.map_values(|k: usize| k as nat) == selected(entries@.subrange(0, i as int), wanted),
        decreases entries.len() - i,
    {
        let ghost prefix = entries@.subrange(0, i + 1);
        assert(prefix.drop_last() =~= entries@.subrange(0, i as int));
        assert(prefix.last() == entries@[i as int]);
        let take = match only {
            None => true,
            Some(id) => crate::text::same(&crate::text::chars_of(entries[i].id.as_str()), &crate::text::chars_of(id)),
        };
        let ghost before = picked@.map_values(|k: usize| k as nat);
        if take {
            picked.push(i);
            assert(picked@.map_values(|k: usize| k as nat) =~= before.push(i as nat));
        }
        i += 1;
    }
    assert(entries@.subrange(0, entries.len() as int) =~= entries@);
    if picked.len() == 0 {
        let mut m = String::from_str("no entry called '");
        match only {
            Some(id) => m.append(id),
            None => {},
        }
        m.append("' in ");
        m.append(catalog);
        proof {
            assert(Seq::<char>::empty() + "' in "@ =~= "' in "@);
        }
        Err(m)
    } else {
        Ok(picked)
    }
}

/// Why a run stops before an entry the card has no room for.
pub open spec fn no_room_text(id: Seq<char>, declared_mib: u32, free_mib: nat) -> Seq<char> {
    "'"@ + id + "' declares "@ + decimal(declared_mib as nat) + " MiB and the card has "@ + decimal(
        free_mib,
    ) + " MiB free; something else is holding it, so this and every reading after it would be wrong"@
}

/// Whether the card has room for the next entry to be measured: it does
/// unless a card is there and has less free than the entry declares.
///
/// # Errors
///
/// Returns why not, naming the entry, what it declares and what is free.
pub fn room_for(id: &str, declared_mib: u32, device: Option<&DeviceMemory>) -> (r: Result<(), String>)
    ensures
        match device {
            Some(d) => if free_of(*d) < declared_mib {
                r matches Err(m) && m@ == no_room_text(id@, declared_mib, free_of(*d))
            } else {
                r is Ok
            },
            None => r is Ok,
        },
{
    match device {
        Some(d) => {
            let free = d.free_mib();
            if free < declared_mib as u64 {
                let mut m = String::from_str("'");
                m.append(id);
                m.append("' declares ");
                m.append(decimal_string(declared_mib as u128).as_str());
                m.append(" MiB and the card has ");
                m.append(decimal_string(free as u128).as_str());
                m.append(
                    " MiB free; something else is holding it, so this and every reading after it would be wrong",
                );
                Err(m)
            } else {
                Ok(())
            }
        },
        None => Ok(()),
    }
}

/// Recommendations land on a quarter gibibyte.
pub const STEP: u32 = 256;

/// The estimate a measurement supports: a twentieth above it, rounded up to
/// a quarter gibibyte.
pub open spec fn recommended(measured: u32) -> nat {
    let with_room = measured + measured / 20;
    ((with_room + 255) / 256 * 256) as nat
}

/// A recommendation lands on a quarter gibibyte, clears what was measured
/// by at least a twentieth, and rounds up by less than a quarter gibibyte.
pub proof fn law_recommendation_clears_measurement(measured: u32)
    ensures
        recommended(measured) % 256 == 0,
        recommended(measured) >= measured + measured / 20,
        recommended(measured) < measured + measured / 20 + 256,
{
    let w = measured + measured / 20;
    assert(((w + 255) / 256 * 256) % 256 == 0) by (nonlinear_arith);
    assert((w + 255) / 256 * 256 >= w) by (nonlinear_arith)
        requires
            w >= 0,
    ;
    assert((w + 255) / 256 * 256 < w + 256) by (nonlinear_arith)
        requires
            w >= 0,
    ;
}

/// Whether the estimate a measurement supports fits in 32 bits, as every
/// estimate a catalog carries must.
pub fn recommends_within(measured: u32) -> (b: bool)
    ensures
        b == (recommended(measured) <= u32::MAX),
{
    let with_room = measured as u64 + measured as u64 / 20;
    let steps = (with_room + 255) / 256;
    steps * 256 <= u32::MAX as u64
}

impl Measurement {
    /// The estimate this measurement supports, with room over it.
    ///
    /// A twentieth above what was measured, rounded up to a quarter
    /// gibibyte: enough headroom over one driver, one day and one context,
    /// and not so much that a model which nearly fills a card is refused by
    /// a budget it would have fitted.
    pub fn recommended_mib(&self) -> (r: Option<u32>)
        requires
            match self.measured_mib {
                Some(m) => recommended(m) <= u32::MAX,
                None => true,
            },
        ensures
            r == match self.measured_mib {
                Some(m) => Some(recommended(m) as u32),
                None => None,
            },
    {
        let measured = match self.measured_mib {
            Some(m) => m,
            None => return None,
        };
        let with_room = measured as u64 + measured as u64 / 20;
        let steps = (with_room + 255) / 256;
        Some((steps * 256) as u32)
    }
}

/// What a card says an entry holds: its own reading of the process when it
/// has one, else what the card's use grew by across the load, when it grew.
pub open spec fn measured_from(device: Option<u64>, before: Option<u64>, after: Option<u64>) -> Option<u32> {
    let mib = match device {
        Some(d) => Some(d),
        None => match (before, after) {
            (Some(b), Some(a)) => if a > b {
                Some((a - b) as u64)
            } else {
                None
            },
            _ => None,
        },
    };
    match mib {
        Some(m) => if m <= u32::MAX {
            Some(m as u32)
        } else {
            None
        },
        None => None,
    }
}

/// What a card says an entry holds, in mebibytes, when it says.
///
/// Per process is exact and wins where the platform exposes it. The
/// difference across the load is the fallback, sound only because one entry
/// is loaded at a time.
pub fn measured_mib_of(device: Option<u64>, before: Option<u64>, after: Option<u64>) -> (r: Option<u32>)
    ensures
        r == measured_from(device, before, after),
{
    let mib = match device {
        Some(d) => Some(d),
        None => match (before, after) {
            (Some(b), Some(a)) => if a > b {
                Some(a - b)
            } else {
                None
            },
            _ => None,
        },
    };
    match mib {
        Some(m) => if m <= u32::MAX as u64 {
            Some(m as u32)
        } else {
            None
        },
        None => None,
    }
}

/// The endpoint that will answer an entry, and so how it can be timed.
#[derive(Debug, Clone, Copy, PartialEq, Eq)]
pub enum Answers {
    Completions,
    Embeddings,
    Reranking,
}

/// Whether a flag is set to switch its mode on.
pub open spec fn mode_on(flags: Flags, name: Seq<char>) -> bool {
    match flags.value_of(name) {
        Some(v) => switched_on(v),
        None => false,
    }
}

/// Which endpoint answers for flags like these: a reranker refuses both
/// other kinds, an embedder refuses completions, and anything else
/// generates.
pub open spec fn answered_at(flags: Flags) -> Answers {
    if mode_on(flags, "reranking"@) || mode_on(flags, "rerank"@) {
        Answers::Reranking
    } else if mode_on(flags, "embeddings"@) || mode_on(flags, "embedding"@) {
        Answers::Embeddings
    } else {
        Answers::Completions
    }
}

/// Whether a flag is set to switch its mode on.
fn set(flags: &Flags, name: &str) -> (b: bool)
    ensures
        b == mode_on(*flags, name@),
{
    match flags.get(name) {
        Some(v) => is_switched_on(v),
        None => false,
    }
}

/// Which endpoint answers for this entry, read from the flags the server
/// itself keys on.
pub fn answers(flags: &Flags) -> (r: Answers)
    ensures
        r == answered_at(*flags),
{
    if set(flags, "reranking") || set(flags, "rerank") {
        Answers::Reranking
    } else if set(flags, "embeddings") || set(flags, "embedding") {
        Answers::Embeddings
    } else {
        Answers::Completions
    }
}

/// How many passages an embedding or reranking entry is measured over.
pub const PASSAGES: u32 = 32;

/// The prompt every entry is measured on, fixed so runs compare.
pub open spec fn prompt_text() -> Seq<char> {
    "Write a short paragraph explaining what a memory budget is and why a program might need one."@
}

/// The prompt every entry is measured on.
pub fn prompt() -> (s: String)
    ensures
        s@ == prompt_text(),
{
    String::from_str(
        "Write a short paragraph explaining what a memory budget is and why a program might need one.",
    )
}

/// One passage of the fixed batch.
pub open spec fn passage_text(index: nat) -> Seq<char> {
    "Passage "@ + decimal(index) + ". "@ + prompt_text()
}

/// A fixed batch, so that two runs measure the same work.
pub fn passages() -> (r: Vec<String>)
    ensures
        r@.len() == PASSAGES,
        forall|i: int| 0 <= i < PASSAGES ==> #[trigger] r@[i]@ == passage_text(i as nat),
{
    let mut r: Vec<String> = Vec::new();
    let mut index: u32 = 0;
    while index < PASSAGES
        invariant
            index <= PASSAGES,
            r@.len() == index,
            forall|i: int| 0 <= i < index ==> #[trigger] r@[i]@ == passage_text(i as nat),
        decreases PASSAGES - index,
    {
        let mut p = String::from_str("Passage ");
        p.append(decimal_string(index as u128).as_str());
        p.append(". ");
        p.append(prompt().as_str());
        r.push(p);
        index += 1;
    }
    r
}

/// Every passage of the fixed batch, in order.
pub open spec fn passage_texts() -> Seq<Seq<char>> {
    Seq::new(PASSAGES as nat, |i: int| passage_text(i as nat))
}

/// An embedding request of these passages: `{"input":[..],"model":..}`.
pub open spec fn embeddings_json(id: Seq<char>, passages: Seq<Seq<char>>) -> Seq<char> {
    "{\"input\":"@ + string_array(passages) + ",\"model\":"@ + quoted(id) + "}"@
}

/// A reranking request of these passages against a query:
/// `{"documents":[..],"model":..,"query":..}`.
pub open spec fn reranking_json(id: Seq<char>, query: Seq<char>, passages: Seq<Seq<char>>) -> Seq<char> {
    "{\"documents\":"@ + string_array(passages) + ",\"model\":"@ + quoted(id) + ",\"query\":"@
        + quoted(query) + "}"@
}

/// An embedding request as JSON text.
fn write_embeddings(id: &str, passages: &[String]) -> (r: String)
    ensures
        r@ == embeddings_json(id@, passages@.map_values(|p: String| p@)),
{
    let mut r = String::from_str("{\"input\":");
    r.append(strings_array(passages).as_str());
    r.append(",\"model\":");
    r.append(quote(id).as_str());
    r.append("}");
    r
}

/// A reranking request as JSON text.
fn write_reranking(id: &str, query: &str, passages: &[String]) -> (r: String)
    ensures
        r@ == reranking_json(id@, query@, passages@.map_values(|p: String| p@)),
{
    let mut r = String::from_str("{\"documents\":");
    r.append(strings_array(passages).as_str());
    r.append(",\"model\":");
    r.append(quote(id).as_str());
    r.append(",\"query\":");
    r.append(quote(query).as_str());
    r.append("}");
    r
}

/// The fixed batch, as its texts.
fn batch() -> (r: Vec<String>)
    ensures
        r@.map_values(|p: String| p@) == passage_texts(),
{
    let r = passages();
    assert(r@.map_values(|p: String| p@) =~= passage_texts());
    r
}

/// What an embedding entry is measured on: the fixed batch, in one request.
pub fn embeddings(id: &str) -> (r: String)
    ensures
        r@ == embeddings_json(id@, passage_texts()),
{
    write_embeddings(id, batch().as_slice())
}

/// The query a reranking entry scores the batch against.
pub open spec fn query_text() -> Seq<char> {
    "what is a memory budget"@
}

/// What a reranking entry is measured on: the fixed batch against one
/// query, in one request.
pub fn reranking(id: &str) -> (r: String)
    ensures
        r@ == reranking_json(id@, query_text(), passage_texts()),
{
    write_reranking(id, "what is a memory budget", batch().as_slice())
}

/// Whether a year has a twenty-ninth of February.
pub open spec fn is_leap(year: nat) -> bool {
    (year % 4 == 0 && year % 100 != 0) || year % 400 == 0
}

/// Whether a year has a twenty-ninth of February.
pub fn leap(year: u64) -> (b: bool)
    ensures
        b == is_leap(year as nat),
{
    (year % 4 == 0 && year % 100 != 0) || year % 400 == 0
}

/// How many days a year has.
pub open spec fn year_length(year: nat) -> nat {
    if is_leap(year) {
        366
    } else {
        365
    }
}

/// The year a count of days since the start of `year` falls in, and the day
/// of that year.
pub open spec fn civil_year(year: nat, days: nat) -> (nat, nat)
    decreases days,
{
    if days < year_length(year) {
        (year, days)
    } else {
        civil_year(year + 1, (days - year_length(year)) as nat)
    }
}

/// How many days a month of a year has, January being month zero.
pub open spec fn month_length(year: nat, month: nat) -> nat {
    if month == 1 {
        if is_leap(year) {
            29
        } else {
            28
        }
    } else if month == 3 || month == 5 || month == 8 || month == 10 {
        30
    } else {
        31
    }
}

/// The month a day of a year falls in, counting from `month`, and the day
/// of that month.
pub open spec fn civil_month(year: nat, month: nat, days: nat) -> (nat, nat)
    decreases 12 - month,
{
    if month < 12 && days >= month_length(year, month) {
        civil_month(year, month + 1, (days - month_length(year, month)) as nat)
    } else {
        (month, days)
    }
}

/// The date a count of seconds since the Unix epoch falls on, written
/// `YYYY-MM-DD`.
pub open spec fn date_text(seconds: nat) -> Seq<char> {
    let (year, day) = civil_year(1970, seconds / 86400);
    let (month, rest) = civil_month(year, 0, day);
    padded(year, 4) + "-"@ + padded(month + 1, 2) + "-"@ + padded(rest + 1, 2)
}

/// How many days a month of a year has.
fn days_in(year: u64, month: u64) -> (n: u64)
    requires
        month < 12,
    ensures
        n == month_length(year as nat, month as nat),
{
    if month == 1 {
        if leap(year) {
            29
        } else {
            28
        }
    } else if month == 3 || month == 5 || month == 8 || month == 10 {
        30
    } else {
        31
    }
}

/// How many days a year has.
fn days_of_year(year: u64) -> (n: u64)
    ensures
        n == year_length(year as nat),
{
    if leap(year) {
        366
    } else {
        365
    }
}

/// A day of a year falls in some month, and each month is at most 31 days.
proof fn lemma_civil_month(year: nat, month: nat, days: nat)
    requires
        month <= 12,
    ensures
        civil_month(year, month, days).0 <= 12,
    decreases 12 - month,
{
    if month < 12 && days >= month_length(year, month) {
        lemma_civil_month(year, month + 1, (days - month_length(year, month)) as nat);
    }
}

/// The date, as a comment can carry it, that a count of seconds since the
/// Unix epoch falls on.
///
/// A measurement is one machine on one day; recording when it was taken is
/// what lets a later reader distrust it by the right amount.
pub fn date_of(seconds: u64) -> (s: String)
    ensures
        s@ == date_text(seconds as nat),
{
    let mut year: u64 = 1970;
    let mut remaining: u64 = seconds / 86400;
    while remaining >= days_of_year(year)
        invariant
            1970 <= year,
            year - 1970 + remaining <= seconds / 86400,
            civil_year(1970, (seconds / 86400) as nat) == civil_year(year as nat, remaining as nat),
        decreases remaining,
    {
        remaining -= days_of_year(year);
        year += 1;
    }
    let mut month: u64 = 0;
    assert(civil_year(year as nat, remaining as nat) == (year as nat, remaining as nat));
    while month < 12 && remaining >= days_in(year, month)
        invariant
            month <= 12,
            remaining <= seconds / 86400,
            civil_month(year as nat, 0, civil_year(1970, (seconds / 86400) as nat).1) == civil_month(
                year as nat,
                month as nat,
                remaining as nat,
            ),
        decreases 12 - month,
    {
        remaining -= days_in(year, month);
        month += 1;
    }
    let mut s = string_of(padded_chars(year as u128, 4).as_slice());
    s.append("-");
    s.append(string_of(padded_chars((month + 1) as u128, 2).as_slice()).as_str());
    s.append("-");
    s.append(string_of(padded_chars((remaining + 1) as u128, 2).as_slice()).as_str());
    s
}

/// What a person pastes into the catalog for one measurement that supports
/// another estimate than the one declared.
pub open spec fn correction_lines(id: Seq<char>, declared: u32, measured: u32, wants: nat, today: Seq<char>) -> Seq<Seq<char>> {
    seq![
        "[models."@ + id + "]"@,
        "# Measured "@ + decimal(measured as nat) + " MiB resident on "@ + today + "; a twentieth over,"@,
        "# to a quarter gibibyte. Was "@ + decimal(declared as nat) + " MiB."@,
        "memory_estimate_mib = "@ + decimal(wants),
        Seq::<char>::empty(),
    ]
}

/// The corrections these measurements support, in order: one for each that
/// was measured and supports an estimate other than the declared one.
pub open spec fn corrections(ms: Seq<Measurement>, today: Seq<char>) -> Seq<Seq<char>>
    decreases ms.len(),
{
    if ms.len() == 0 {
        Seq::empty()
    } else {
        let m = ms.last();
        corrections(ms.drop_last(), today) + match m.measured_mib {
            Some(x) => if recommended(x) != m.declared_mib {
                correction_lines(m.id@, m.declared_mib, x, recommended(x), today)
            } else {
                Seq::empty()
            },
            None => Seq::empty(),
        }
    }
}

/// The lines the bench command ends with: nothing when every declared
/// estimate stands, else a heading and the corrections.
pub open spec fn recommendation_lines(ms: Seq<Measurement>, today: Seq<char>) -> Seq<Seq<char>> {
    let c = corrections(ms, today);
    if c.len() == 0 {
        Seq::empty()
    } else {
        seq![Seq::<char>::empty(), "estimates these measurements support:"@, Seq::<char>::empty()] + c
    }
}

/// Whether every measurement's recommendation fits in a `u32`.
pub open spec fn recommendable(ms: Seq<Measurement>) -> bool {
    forall|i: int| 0 <= i < ms.len() ==> match #[trigger] ms[i].measured_mib {
        Some(m) => recommended(m) <= u32::MAX,
        None => true,
    }
}

/// What to put in the catalog, for a person to paste, one line each;
/// `today` is the date the measurements were taken.
///
/// Deliberately not written back: the catalog's comments carry the reasoning
/// for the numbers beside them.
pub fn recommendations(measured: &Vec<Measurement>, today: &str) -> (r: Vec<String>)
    requires
        recommendable(measured@),
    ensures
        strings(r@) == recommendation_lines(measured@, today@),
{
    let mut lines: Vec<String> = Vec::new();
    let mut i: usize = 0;
    assert(strings(lines@) =~= Seq::<Seq<char>>::empty());
    while i < measured.len()
        invariant
            i <= measured.len(),
            recommendable(measured@),
            strings(lines@) == corrections(measured@.subrange(0, i as int), today@),
        decreases measured.len() - i,
    {
        let ghost upto = measured@.subrange(0, i + 1);
        assert(upto.drop_last() =~= measured@.subrange(0, i as int));
        assert(upto.last() == measured@[i as int]);
        let reading = &measured[i];
        let ghost before = strings(lines@);
        match reading.measured_mib {
            Some(m) => {
                let wants = match reading.recommended_mib() {
                    Some(w) => w,
                    None => 0,
                };
                if wants != reading.declared_mib {
                    let mut head = String::from_str("[models.");
                    head.append(reading.id.as_str());
                    head.append("]");
                    push_string(&mut lines, head);
                    let mut measured_line = String::from_str("# Measured ");
                    measured_line.append(decimal_string(m as u128).as_str());
                    measured_line.append(" MiB resident on ");
                    measured_line.append(today);
                    measured_line.append("; a twentieth over,");
                    push_string(&mut lines, measured_line);
                    let mut was = String::from_str("# to a quarter gibibyte. Was ");
                    was.append(decimal_string(reading.declared_mib as u128).as_str());
                    was.append(" MiB.");
                    push_string(&mut lines, was);
                    let mut setting = String::from_str("memory_estimate_mib = ");
                    setting.append(decimal_string(wants as u128).as_str());
                    push_string(&mut lines, setting);
                    push_string(&mut lines, String::new());
                    assert(strings(lines@) =~= before + correction_lines(
                        reading.id@,
                        reading.declared_mib,
                        m,
                        recommended(m),
                        today@,
                    ));
                } else {
                    assert(strings(lines@) =~= before + Seq::<Seq<char>>::empty());
                }
            },
            None => {
                assert(strings(lines@) =~= before + Seq::<Seq<char>>::empty());
            },
        }
        i += 1;
    }
    assert(measured@.subrange(0, measured@.len() as int) =~= measured@);
    if lines.len() == 0 {
        return lines;
    }
    let mut out: Vec<String> = Vec::new();
    push_string(&mut out, String::new());
    push_string(&mut out, String::from_str("estimates these measurements support:"));
    push_string(&mut out, String::new());
    let ghost head = strings(out@);
    let mut k: usize = 0;
    while k < lines.len()
        invariant
            k <= lines.len(),
            strings(out@) == head + strings(lines@).subrange(0, k as int),
        decreases lines.len() - k,
    {
        push_string(&mut out, lines[k].clone());
        k += 1;
        assert(strings(out@) =~= head + strings(lines@).subrange(0, k as int));
    }
    assert(strings(lines@).subrange(0, lines@.len() as int) =~= strings(lines@));
    out
}

} // verus!
