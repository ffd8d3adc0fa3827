//! Reading numbers out of what the platform's own tools print.
//!
//! Every function here takes captured text and returns a figure or `None`,
//! and nothing here runs anything. A figure this module cannot read is a
//! probe that reports "unknown", never a wrong number, because a wrong number
//! here becomes a decision to start a model there is no room for. A sum that
//! would not fit in 64 bits is unreadable in the same way.

use vstd::prelude::*;

use crate::memory::DeviceMemory;
use crate::text::{
    chars_of, digits_value, is_digit, lines, lines_of, matches_at, occurs_at, parse_u32,
    parse_u64, read_u32, read_u64, slice, split_at_first, split_once, trim, trimmed, views,
    words, words_of,
};

verus! {

/// One mebibyte in kibibytes, the unit `ps` and `/proc/meminfo` speak.
pub const KIB_PER_MIB: u64 = 1024;

/// One mebibyte in bytes, the unit `sysctl` and PowerShell speak.
pub const BYTES_PER_MIB: u64 = 1048576;

/// One line of the device query, `total, used`, read as two numbers.
pub open spec fn device_line(line: Seq<char>) -> Option<(u64, u64)> {
    match split_once(line, ',') {
        Some((left, right)) => match (parse_u64(trim(left)), parse_u64(trim(right))) {
            (Some(t), Some(u)) => Some((t, u)),
            _ => None,
        },
        None => None,
    }
}

/// The device query's lines summed: total, used, and how many devices, or
/// `None` once a line that is not blank cannot be read.
pub open spec fn device_sums(ls: Seq<Seq<char>>) -> Option<(nat, nat, nat)>
    decreases ls.len(),
{
    if ls.len() == 0 {
        Some((0, 0, 0))
    } else {
        match device_sums(ls.drop_last()) {
            Some((t, u, n)) => if trim(ls.last()).len() == 0 {
                Some((t, u, n))
            } else {
                match device_line(ls.last()) {
                    Some((a, b)) => Some((t + a as nat, u + b as nat, n + 1)),
                    None => None,
                }
            },
            None => None,
        }
    }
}

/// What the device query says: every device summed, or `None` when there is
/// no device line, a line cannot be read, or a sum does not fit.
pub open spec fn device_reading(text: Seq<char>) -> Option<DeviceMemory> {
    match device_sums(lines(text)) {
        Some((t, u, n)) => if n > 0 && t <= u64::MAX && u <= u64::MAX {
            Some(DeviceMemory { total_mib: t as u64, used_mib: u as u64 })
        } else {
            None
        },
        None => None,
    }
}

proof fn lemma_device_sums_fail(ls: Seq<Seq<char>>, i: int)
    requires
        0 <= i <= ls.len(),
        device_sums(ls.subrange(0, i)) is None,
    ensures
        device_sums(ls) is None,
    decreases ls.len() - i,
{
    if i < ls.len() {
        assert(ls.subrange(0, i + 1).drop_last() =~= ls.subrange(0, i));
        lemma_device_sums_fail(ls, i + 1);
    } else {
        assert(ls.subrange(0, i) =~= ls);
    }
}

/// What `nvidia-smi --query-gpu=memory.total,memory.used` printed, as one
/// device.
///
/// One line per device, `total, used`, both in mebibytes. Several devices are
/// summed, because `llama-server` splits a model across every device it can
/// see by default -- so what fits is what they hold together.
pub fn device(text: &str) -> (r: Option<DeviceMemory>)
    ensures
        r == device_reading(text@),
{
    let chars = chars_of(text);
    let ls = lines_of(&chars);
    let ghost all = views(ls@);
    let mut total: u128 = 0;
    let mut used: u128 = 0;
    let mut devices: usize = 0;
    let mut i: usize = 0;
    assert(all.subrange(0, 0) =~= Seq::<Seq<char>>::empty());
    while i < ls.len()
        invariant
            i <= ls.len(),
            all == views(ls@),
            all == lines(text@),
            all.len() == ls.len(),
            device_sums(all.subrange(0, i as int)) == Some(
                (total as nat, used as nat, devices as nat),
            ),
            total <= i * 0xffff_ffff_ffff_ffffu128,
            used <= i * 0xffff_ffff_ffff_ffffu128,
            devices <= i,
        decreases ls.len() - i,
    {
        let line = &ls[i];
        assert(all.subrange(0, i + 1).drop_last() =~= all.subrange(0, i as int));
        assert(all.subrange(0, i + 1).last() == line@);
        let t = trimmed(line);
        if t.len() != 0 {
            match split_at_first(line, ',') {
                Some((left, right)) => {
                    let a = read_u64(&trimmed(&left));
                    let b = read_u64(&trimmed(&right));
                    match (a, b) {
                        (Some(a), Some(b)) => {
                            total = total + a as u128;
                            used = used + b as u128;
                            devices = devices + 1;
                        },
                        _ => {
                            proof {
                                lemma_device_sums_fail(all, i + 1);
                                assert(all =~= lines(text@));
                            }
                            return None;
                        },
                    }
                },
                None => {
                    proof {
                        lemma_device_sums_fail(all, i + 1);
                        assert(all =~= lines(text@));
                    }
                    return None;
                },
            }
        }
        i += 1;
    }
    assert(all.subrange(0, ls.len() as int) =~= all);
    if devices > 0 && total <= 0xffff_ffff_ffff_ffffu128 && used <= 0xffff_ffff_ffff_ffffu128 {
        Some(DeviceMemory { total_mib: total as u64, used_mib: used as u64 })
    } else {
        None
    }
}

/// The process query's lines for one pid: `None` once a line naming the pid
/// carries a figure that cannot be read, else what the lines naming it hold
/// together, if any does.
pub open spec fn process_sums(ls: Seq<Seq<char>>, pid: u32) -> Option<Option<nat>>
    decreases ls.len(),
{
    if ls.len() == 0 {
        Some(None)
    } else {
        match process_sums(ls.drop_last(), pid) {
            Some(acc) => match split_once(ls.last(), ',') {
                Some((left, right)) => if parse_u32(trim(left)) != Some(pid) {
                    Some(acc)
                } else {
                    match parse_u64(trim(right)) {
                        Some(m) => Some(
                            Some(
                                match acc {
                                    Some(x) => x + m as nat,
                                    None => m as nat,
                                },
                            ),
                        ),
                        None => None,
                    }
                },
                None => Some(acc),
            },
            None => None,
        }
    }
}

/// What the process query says one process holds on the device.
pub open spec fn process_reading(text: Seq<char>, pid: u32) -> Option<u64> {
    match process_sums(lines(text), pid) {
        Some(Some(n)) => if n <= u64::MAX {
            Some(n as u64)
        } else {
            None
        },
        _ => None,
    }
}

proof fn lemma_process_sums_fail(ls: Seq<Seq<char>>, pid: u32, i: int)
    requires
        0 <= i <= ls.len(),
        process_sums(ls.subrange(0, i), pid) is None,
    ensures
        process_sums(ls, pid) is None,
    decreases ls.len() - i,
{
    if i < ls.len() {
        assert(ls.subrange(0, i + 1).drop_last() =~= ls.subrange(0, i));
        lemma_process_sums_fail(ls, pid, i + 1);
    } else {
        assert(ls.subrange(0, i) =~= ls);
    }
}

/// What one process holds on the device, from
/// `nvidia-smi --query-compute-apps=pid,used_memory`.
///
/// One line per process per device, `pid, used`, in mebibytes. A process on
/// several devices appears once per device, so its lines are summed. A
/// process that appears on no line is unknown rather than zero: the query
/// prints nothing at all on some platforms, and reading that silence as "this
/// child holds nothing on the device" would let eviction free room that is
/// not there.
pub fn compute_apps(text: &str, pid: u32) -> (r: Option<u64>)
    ensures
        r == process_reading(text@, pid),
{
    let chars = chars_of(text);
    let ls = lines_of(&chars);
    let ghost all = views(ls@);
    let mut used: Option<u128> = None;
    let mut i: usize = 0;
    assert(all.subrange(0, 0) =~= Seq::<Seq<char>>::empty());
    while i < ls.len()
        invariant
            i <= ls.len(),
            all == views(ls@),
            all == lines(text@),
            all.len() == ls.len(),
            process_sums(all.subrange(0, i as int), pid) == Some(
                match used {
                    Some(x) => Some(x as nat),
                    None => None::<nat>,
                },
            ),
            match used {
                Some(x) => x <= i * 0xffff_ffff_ffff_ffffu128,
                None => true,
            },
        decreases ls.len() - i,
    {
        let line = &ls[i];
        assert(all.subrange(0, i + 1).drop_last() =~= all.subrange(0, i as int));
        assert(all.subrange(0, i + 1).last() == line@);
        match split_at_first(line, ',') {
            Some((left, right)) => {
                let named = read_u32(&trimmed(&left));
                if named == Some(pid) {
                    match read_u64(&trimmed(&right)) {
                        Some(mib) => {
                            used = Some(
                                match used {
                                    Some(x) => x + mib as u128,
                                    None => mib as u128,
                                },
                            );
                        },
                        None => {
                            proof {
                                lemma_process_sums_fail(all, pid, i + 1);
                                assert(all =~= lines(text@));
                            }
                            return None;
                        },
                    }
                }
            },
            None => {},
        }
        i += 1;
    }
    assert(all.subrange(0, ls.len() as int) =~= all);
    match used {
        Some(x) => if x <= 0xffff_ffff_ffff_ffffu128 {
            Some(x as u64)
        } else {
            None
        },
        None => None,
    }
}

/// The rest of the first line that begins with `prefix`, if any does.
pub open spec fn after_first_prefixed(ls: Seq<Seq<char>>, prefix: Seq<char>) -> Option<Seq<char>>
    decreases ls.len(),
{
    if ls.len() == 0 {
        None
    } else if prefix.len() <= ls[0].len() && ls[0].subrange(0, prefix.len() as int) == prefix {
        Some(ls[0].subrange(prefix.len() as int, ls[0].len() as int))
    } else {
        after_first_prefixed(ls.drop_first(), prefix)
    }
}

/// The label of the line in `/proc/meminfo` that gives the total.
pub open spec fn mem_total_label() -> Seq<char> {
    seq!['M', 'e', 'm', 'T', 'o', 't', 'a', 'l', ':']
}

/// A whole number on its own, in units `per_mib` of which make a mebibyte.
pub open spec fn scaled_reading(text: Seq<char>, per_mib: u64) -> Option<u64> {
    match parse_u64(trim(text)) {
        Some(count) => Some((count / per_mib) as u64),
        None => None,
    }
}

/// What `/proc/meminfo` says the machine holds.
pub open spec fn meminfo_reading(text: Seq<char>) -> Option<u64> {
    match after_first_prefixed(lines(text), mem_total_label()) {
        Some(rest) => if words(rest).len() > 0 {
            scaled_reading(words(rest)[0], KIB_PER_MIB)
        } else {
            None
        },
        None => None,
    }
}

/// `MemTotal` from `/proc/meminfo`, in mebibytes.
pub fn meminfo_total(text: &str) -> (r: Option<u64>)
    ensures
        r == meminfo_reading(text@),
{
    let chars = chars_of(text);
    let ls = lines_of(&chars);
    let ghost all = views(ls@);
    assert(all.subrange(0, all.len() as int) =~= all);
    let label: Vec<char> = vec!['M', 'e', 'm', 'T', 'o', 't', 'a', 'l', ':'];
    assert(label@ =~= mem_total_label());
    let mut i: usize = 0;
    while i < ls.len()
        invariant
            i <= ls.len(),
            all == views(ls@),
            all == lines(text@),
            all.len() == ls.len(),
            label@ == mem_total_label(),
            after_first_prefixed(all, label@) == after_first_prefixed(
                all.subrange(i as int, all.len() as int),
                label@,
            ),
        decreases ls.len() - i,
    {
        let line = &ls[i];
        let ghost rest = all.subrange(i as int, all.len() as int);
        assert(rest[0] == line@);
        assert(rest.drop_first() =~= all.subrange(i + 1, all.len() as int));
        if matches_at(line, &label, 0) {
            let tail = slice(line, label.len(), line.len());
            let ws = words_of(&tail);
            if ws.len() > 0 {
                assert(views(ws@)[0] == ws@[0]@);
                return scaled(&ws[0], KIB_PER_MIB);
            } else {
                return None;
            }
        }
        i += 1;
    }
    None
}

/// Reads a whole number in a unit `per_mib` of which make a mebibyte.
pub fn scaled(text: &Vec<char>, per_mib: u64) -> (r: Option<u64>)
    requires
        per_mib > 0,
    ensures
        r == scaled_reading(text@, per_mib),
{
    match read_u64(&trimmed(text)) {
        Some(count) => Some(count / per_mib),
        None => None,
    }
}

/// One whole number on its own, in some unit `per_mib` of which make a
/// mebibyte: bytes from `sysctl -n hw.memsize` and PowerShell, kibibytes
/// padded with spaces from `ps -o rss=`, or nothing at all when the process
/// asked about is gone.
pub fn scaled_text(text: &str, per_mib: u64) -> (r: Option<u64>)
    requires
        per_mib > 0,
    ensures
        r == scaled_reading(text@, per_mib),
{
    scaled(&chars_of(text), per_mib)
}

/// The first line that begins with a double quote.
pub open spec fn first_quoted(ls: Seq<Seq<char>>) -> Option<Seq<char>>
    decreases ls.len(),
{
    if ls.len() == 0 {
        None
    } else if ls[0].len() > 0 && ls[0][0] == '"' {
        Some(ls[0])
    } else {
        first_quoted(ls.drop_first())
    }
}

/// The separator between two quoted CSV fields.
pub open spec fn field_separator() -> Seq<char> {
    seq!['"', ',', '"']
}

/// The last place before `k` at which `p` stands in `s`.
pub open spec fn last_occurrence(s: Seq<char>, p: Seq<char>, k: nat) -> Option<nat>
    decreases k,
{
    if k == 0 {
        None
    } else if occurs_at(s, p, k - 1) {
        Some((k - 1) as nat)
    } else {
        last_occurrence(s, p, (k - 1) as nat)
    }
}

/// The last field of a quoted CSV line, as `rsplit("\",\"").next()` yields
/// it: what follows the last separator, or the whole line when there is none.
pub open spec fn last_field(line: Seq<char>) -> Seq<char> {
    match last_occurrence(line, field_separator(), line.len()) {
        Some(k) => line.subrange(k as int + 3, line.len() as int),
        None => line,
    }
}

/// Text with every leading double quote taken off.
pub open spec fn without_leading_quotes(s: Seq<char>) -> Seq<char>
    decreases s.len(),
{
    if s.len() > 0 && s[0] == '"' {
        without_leading_quotes(s.drop_first())
    } else {
        s
    }
}

/// Text with every trailing double quote taken off.
pub open spec fn without_trailing_quotes(s: Seq<char>) -> Seq<char>
    decreases s.len(),
{
    if s.len() > 0 && s.last() == '"' {
        without_trailing_quotes(s.drop_last())
    } else {
        s
    }
}

/// The ASCII digits of a text, in order, everything else dropped.
pub open spec fn digits_only(s: Seq<char>) -> Seq<char>
    decreases s.len(),
{
    if s.len() == 0 {
        s
    } else if is_digit(s.last()) {
        digits_only(s.drop_last()).push(s.last())
    } else {
        digits_only(s.drop_last())
    }
}

/// What one quoted `tasklist` line says the resident set is, in mebibytes.
pub open spec fn tasklist_line(line: Seq<char>) -> Option<u64> {
    let field = without_trailing_quotes(without_leading_quotes(trim(last_field(line))));
    let d = digits_only(field);
    if d.len() == 0 || !(field.len() > 0 && field.last() == 'K') {
        None
    } else {
        match parse_u64(d) {
            Some(kib) => Some((kib / KIB_PER_MIB) as u64),
            None => None,
        }
    }
}

/// What `tasklist` says a process's resident set is, in mebibytes.
pub open spec fn tasklist_reading(text: Seq<char>) -> Option<u64> {
    match first_quoted(lines(text)) {
        Some(line) => tasklist_line(line),
        None => None,
    }
}

/// Where the last field of a quoted CSV line begins.
fn last_field_start(line: &Vec<char>) -> (r: usize)
    ensures
        r <= line.len(),
        line@.subrange(r as int, line.len() as int) == last_field(line@),
{
    let sep: Vec<char> = vec!['"', ',', '"'];
    assert(sep@ =~= field_separator());
    let mut k: usize = line.len();
    while k > 0
        invariant
            k <= line.len(),
            sep@ == field_separator(),
            last_occurrence(line@, sep@, line.len() as nat) == last_occurrence(
                line@,
                sep@,
                k as nat,
            ),
        decreases k,
    {
        if matches_at(line, &sep, k - 1) {
            return k - 1 + 3;
        }
        k -= 1;
    }
    assert(line@.subrange(0, line.len() as int) =~= line@);
    0
}

/// Text with leading and trailing double quotes taken off.
fn strip_quotes(v: &Vec<char>) -> (r: Vec<char>)
    ensures
        r@ == without_trailing_quotes(without_leading_quotes(v@)),
{
    let mut i: usize = 0;
    assert(v@.subrange(0, v.len() as int) =~= v@);
    while i < v.len() && v[i] == '"'
        invariant
            i <= v.len(),
            without_leading_quotes(v@) == without_leading_quotes(
                v@.subrange(i as int, v.len() as int),
            ),
        decreases v.len() - i,
    {
        assert(v@.subrange(i as int, v.len() as int).drop_first() =~= v@.subrange(
            i + 1,
            v.len() as int,
        ));
        i += 1;
    }
    let mut j: usize = v.len();
    assert(without_leading_quotes(v@) =~= v@.subrange(i as int, v.len() as int));
    while j > i && v[j - 1] == '"'
        invariant
            i <= j <= v.len(),
            without_leading_quotes(v@) == v@.subrange(i as int, v.len() as int),
            without_trailing_quotes(without_leading_quotes(v@)) == without_trailing_quotes(
                v@.subrange(i as int, j as int),
            ),
        decreases j,
    {
        assert(v@.subrange(i as int, j as int).drop_last() =~= v@.subrange(i as int, j - 1));
        j -= 1;
    }
    slice(v, i, j)
}

/// The digits of a text.
fn digits_of(v: &Vec<char>) -> (r: Vec<char>)
    ensures
        r@ == digits_only(v@),
{
    let mut r: Vec<char> = Vec::new();
    let mut i: usize = 0;
    while i < v.len()
        invariant
            i <= v.len(),
            r@ == digits_only(v@.subrange(0, i as int)),
        decreases v.len() - i,
    {
        assert(v@.subrange(0, i + 1).drop_last() =~= v@.subrange(0, i as int));
        let c = v[i];
        if '0' <= c && c <= '9' {
            r.push(c);
        }
        i += 1;
    }
    assert(v@.subrange(0, v.len() as int) =~= v@);
    r
}

/// The resident set one quoted `tasklist` line gives.
fn quoted_line_rss(line: &Vec<char>) -> (r: Option<u64>)
    ensures
        r == tasklist_line(line@),
{
    let start = last_field_start(line);
    let last = slice(line, start, line.len());
    let field = strip_quotes(&trimmed(&last));
    let digits = digits_of(&field);
    if digits.len() == 0 || !(field.len() > 0 && field[field.len() - 1] == 'K') {
        return None;
    }
    match read_u64(&digits) {
        Some(kib) => Some(kib / KIB_PER_MIB),
        None => None,
    }
}

/// A resident set from `tasklist /FI "PID eq <pid>" /FO CSV /NH`, in
/// mebibytes.
///
/// One quoted CSV line whose last field is the working set as `12,345 K`.
/// When nothing matches, `tasklist` prints a sentence beginning `INFO:`
/// rather than an empty result, which is why the last field has to carry the
/// unit to count. Fields are split on the quote-comma-quote between them
/// rather than on the comma alone, because the figure carries a thousands
/// separator and splitting on that would read `345` out of `12,345`.
pub fn tasklist_rss(text: &str) -> (r: Option<u64>)
    ensures
        r == tasklist_reading(text@),
{
    let chars = chars_of(text);
    let ls = lines_of(&chars);
    let ghost all = views(ls@);
    assert(all.subrange(0, all.len() as int) =~= all);
    let mut i: usize = 0;
    while i < ls.len()
        invariant
            i <= ls.len(),
            all == views(ls@),
            all == lines(text@),
            all.len() == ls.len(),
            first_quoted(all) == first_quoted(all.subrange(i as int, all.len() as int)),
        decreases ls.len() - i,
    {
        let line = &ls[i];
        let ghost rest = all.subrange(i as int, all.len() as int);
        assert(rest[0] == line@);
        assert(rest.drop_first() =~= all.subrange(i + 1, all.len() as int));
        if line.len() > 0 && line[0] == '"' {
            return quoted_line_rss(line);
        }
        i += 1;
    }
    None
}

} // verus!
