//! What a file's name says: whether it is a model on its own, and what the
//! entry it becomes is called.

use vstd::prelude::*;

use crate::catalog::estimate::shard::{file_name, last_separator, shard_named, shard_of};
use crate::text::{
    chars_of, contains, holds, lower, lower_char, lowercase, matches_at, occurs_at, push_string,
    rsplit_once, same_ignoring_case, same_text_ignoring_case, split_at_last, string_of, strings,
    to_lower,
};

verus! {

/// Identifiers the proxy keeps for its own paths under `/models`.
pub open spec fn reserved_ids() -> Seq<Seq<char>> {
    seq!["load"@, "unload"@, "sse"@, "props"@, "models"@]
}

/// Identifiers the proxy keeps for its own paths under `/models`.
pub fn reserved() -> (r: Vec<String>)
    ensures
        strings(r@) == reserved_ids(),
{
    let r = vec![
        String::from_str("load"),
        String::from_str("unload"),
        String::from_str("sse"),
        String::from_str("props"),
        String::from_str("models"),
    ];
    assert(strings(r@) =~= reserved_ids());
    r
}

/// Whether a character is an ASCII letter or digit.
pub open spec fn is_alnum(c: char) -> bool {
    ('a' <= c <= 'z') || ('A' <= c <= 'Z') || ('0' <= c <= '9')
}

fn alnum(c: char) -> (b: bool)
    ensures
        b == is_alnum(c),
{
    ('a' <= c && c <= 'z') || ('A' <= c && c <= 'Z') || ('0' <= c && c <= '9')
}

/// A file name's extension, as `Path::extension` reads it: what follows the
/// last dot, unless that dot begins the name.
pub open spec fn extension(name: Seq<char>) -> Option<Seq<char>> {
    match rsplit_once(name, "."@) {
        Some((before, after)) => if before.len() == 0 {
            None
        } else {
            Some(after)
        },
        None => None,
    }
}

/// Whether a lowercased name has a segment of letters and digits that ends
/// in `mtp`, the mark of a draft for speculative decoding.
pub open spec fn names_a_draft(lower: Seq<char>) -> bool {
    exists|i: int| #[trigger]
        occurs_at(lower, "mtp"@, i) && (i + 3 == lower.len() || !is_alnum(lower[i + 3]))
}

/// Whether a file name is a model on its own: a `gguf` file in any case,
/// not a projector, not a draft, and not a shard after the first.
pub open spec fn model_name(name: Seq<char>) -> bool {
    &&& match extension(name) {
        Some(e) => same_ignoring_case(e, "gguf"@),
        None => false,
    }
    &&& !contains(lowercase(name), "mmproj"@)
    &&& !names_a_draft(lowercase(name))
    &&& match shard_named(name) {
        Some(sh) => sh.1 == 1,
        None => true,
    }
}

/// Whether a lowercased name marks a draft.
fn marks_a_draft(lower: &Vec<char>) -> (b: bool)
    ensures
        b == names_a_draft(lower@),
{
    let mark = chars_of("mtp");
    proof {
        reveal_strlit("mtp");
    }
    let mut i: usize = 0;
    while i < lower.len()
        invariant
            i <= lower.len(),
            mark@ == "mtp"@,
            "mtp"@.len() == 3,
            forall|j: int| 0 <= j < i ==> !(#[trigger] occurs_at(lower@, "mtp"@, j) && (j + 3
                == lower@.len() || !is_alnum(lower@[j + 3]))),
        decreases lower.len() - i,
    {
        if matches_at(lower, &mark, i) {
            if i + 3 == lower.len() || !alnum(lower[i + 3]) {
                return true;
            }
        }
        i += 1;
    }
    assert forall|j: int| !(#[trigger] occurs_at(lower@, "mtp"@, j) && (j + 3 == lower@.len()
        || !is_alnum(lower@[j + 3]))) by {
        if 0 <= j && occurs_at(lower@, "mtp"@, j) {
            assert(j < lower@.len());
        }
    }
    false
}

/// Whether a file name is a model on its own.
pub fn is_model(name: &str) -> (b: bool)
    ensures
        b == model_name(name@),
{
    let v = chars_of(name);
    let is_gguf = match split_at_last(&v, &chars_of(".")) {
        Some((before, after)) => before.len() != 0 && same_text_ignoring_case(
            &after,
            &chars_of("gguf"),
        ),
        None => false,
    };
    let low = to_lower(&v);
    if !is_gguf || holds(&low, &chars_of("mmproj")) {
        return false;
    }
    if marks_a_draft(&low) {
        return false;
    }
    match shard_of(name) {
        Some(shard) => shard.index == 1,
        None => true,
    }
}

/// Letters and digits folded to lower case, every other run of characters
/// collapsed to one hyphen.
pub open spec fn collapsed(s: Seq<char>) -> Seq<char>
    decreases s.len(),
{
    if s.len() == 0 {
        Seq::empty()
    } else {
        let out = collapsed(s.drop_last());
        let c = s.last();
        if is_alnum(c) {
            out.push(lower(c))
        } else if out.len() > 0 && out.last() == '-' {
            out
        } else {
            out.push('-')
        }
    }
}

/// A text without the hyphens that begin it.
pub open spec fn without_leading(s: Seq<char>) -> Seq<char>
    decreases s.len(),
{
    if s.len() > 0 && s[0] == '-' {
        without_leading(s.drop_first())
    } else {
        s
    }
}

/// A text without the hyphens that end it.
pub open spec fn without_trailing(s: Seq<char>) -> Seq<char>
    decreases s.len(),
{
    if s.len() > 0 && s.last() == '-' {
        without_trailing(s.drop_last())
    } else {
        s
    }
}

/// Lowercase letters and digits, with every other run collapsed to a hyphen
/// and none at either end.
pub open spec fn sanitised_text(s: Seq<char>) -> Seq<char> {
    without_trailing(without_leading(collapsed(s)))
}

/// Lowercase letters and digits, with every other run collapsed to a hyphen.
pub fn sanitised(text: &str) -> (r: String)
    ensures
        r@ == sanitised_text(text@),
{
    let v = chars_of(text);
    let mut out: Vec<char> = Vec::new();
    let mut i: usize = 0;
    while i < v.len()
        invariant
            i <= v.len(),
            out@ == collapsed(v@.subrange(0, i as int)),
        decreases v.len() - i,
    {
        let ghost before = v@.subrange(0, i as int);
        assert(v@.subrange(0, i + 1).drop_last() =~= before);
        let c = v[i];
        if alnum(c) {
            out.push(lower_char(c));
        } else if out.len() > 0 && out[out.len() - 1] == '-' {
        } else {
            out.push('-');
        }
        i += 1;
    }
    assert(v@.subrange(0, v.len() as int) =~= v@);
    let mut start: usize = 0;
    assert(out@.subrange(0, out@.len() as int) =~= out@);
    while start < out.len() && out[start] == '-'
        invariant
            start <= out.len(),
            without_leading(out@) == without_leading(out@.subrange(start as int, out@.len() as int)),
        decreases out.len() - start,
    {
        let ghost rest = out@.subrange(start as int, out@.len() as int);
        assert(rest.drop_first() =~= out@.subrange(start + 1, out@.len() as int));
        start += 1;
    }
    assert(without_leading(out@.subrange(start as int, out@.len() as int)) == out@.subrange(
        start as int,
        out@.len() as int,
    ));
    let mut end: usize = out.len();
    while end > start && out[end - 1] == '-'
        invariant
            start <= end <= out.len(),
            without_trailing(out@.subrange(start as int, out@.len() as int)) == without_trailing(
                out@.subrange(start as int, end as int),
            ),
        decreases end,
    {
        let ghost rest = out@.subrange(start as int, end as int);
        assert(rest.drop_last() =~= out@.subrange(start as int, end - 1));
        end -= 1;
    }
    assert(without_trailing(out@.subrange(start as int, end as int)) == out@.subrange(
        start as int,
        end as int,
    ));
    let kept = crate::text::slice(&out, start, end);
    string_of(kept.as_slice())
}

/// The name an entry takes from its file: the shard stem, or the name
/// without its extension.
pub open spec fn stem_of(name: Seq<char>) -> Seq<char> {
    match shard_named(name) {
        Some(sh) => sh.0,
        None => match rsplit_once(name, "."@) {
            Some((stem, _)) => stem,
            None => name,
        },
    }
}

/// The name of the directory a file is in, if its path names one.
pub open spec fn parent_name(path: Seq<char>) -> Seq<char> {
    match last_separator(path) {
        Some(at) => file_name(path.subrange(0, at)),
        None => Seq::empty(),
    }
}

/// The identifier a file would take, and what is worth saying about it,
/// given the names already taken.
pub open spec fn identified(path: Seq<char>, taken: Seq<Seq<char>>) -> (Option<Seq<char>>, Option<Seq<char>>) {
    let wanted = sanitised_text(stem_of(file_name(path)));
    let parent = sanitised_text(parent_name(path));
    let instead = parent + "-"@ + wanted;
    if wanted.len() == 0 {
        (None, None)
    } else if !taken.contains(wanted) {
        (Some(wanted), None)
    } else if parent.len() == 0 || taken.contains(instead) {
        (
            None,
            Some(
                "skipped '"@ + path + "': '"@ + wanted + "' is already taken, and so is '"@
                    + instead + "'"@,
            ),
        )
    } else {
        (
            Some(instead),
            Some("discovered '"@ + path + "' as '"@ + instead + "', because '"@ + wanted
                + "' is already taken"@),
        )
    }
}

/// Whether a list of names holds one.
fn taken_already(taken: &Vec<String>, name: &Vec<char>) -> (b: bool)
    ensures
        b == strings(taken@).contains(name@),
{
    let mut i: usize = 0;
    while i < taken.len()
        invariant
            i <= taken.len(),
            forall|k: int| 0 <= k < i ==> strings(taken@)[k] != name@,
        decreases taken.len() - i,
    {
        if crate::text::same(&chars_of(taken[i].as_str()), name) {
            assert(strings(taken@)[i as int] == name@);
            return true;
        }
        i += 1;
    }
    false
}

/// The text after the last separator of a path, and the text before it.
fn split_path(path: &str) -> (r: (String, String))
    ensures
        r.0@ == file_name(path@),
        r.1@ == parent_name(path@),
{
    let v = chars_of(path);
    proof {
        reveal_strlit("/");
        crate::text::lemma_last_below(path@, "/"@, (path@.len() + 1) as nat);
    }
    match split_at_last(&v, &chars_of("/")) {
        Some((before, name)) => {
            let parent = match split_at_last(&before, &chars_of("/")) {
                Some((_, last)) => string_of(last.as_slice()),
                None => string_of(before.as_slice()),
            };
            proof {
                crate::text::lemma_last_below(before@, "/"@, (before@.len() + 1) as nat);
            }
            (string_of(name.as_slice()), parent)
        },
        None => (string_of(v.as_slice()), String::new()),
    }
}

/// The stem a file name gives an entry.
fn stem(name: &str) -> (r: String)
    ensures
        r@ == stem_of(name@),
{
    match shard_of(name) {
        Some(shard) => shard.stem,
        None => {
            let v = chars_of(name);
            match split_at_last(&v, &chars_of(".")) {
                Some((before, _)) => string_of(before.as_slice()),
                None => string_of(v.as_slice()),
            }
        },
    }
}

/// The identifier a file gets, told apart from any name already taken; the
/// name is taken from then on, and what is worth saying is noted.
pub fn identifier(file: &str, taken: &mut Vec<String>, notes: &mut Vec<String>) -> (r: Option<String>)
    ensures
        ({
            let (id, note) = identified(file@, strings(old(taken)@));
            &&& match r {
                Some(s) => id == Some(s@) && strings(final(taken)@) == strings(old(taken)@).push(s@),
                None => id is None && final(taken)@ == old(taken)@,
            }
            &&& strings(final(notes)@) == match note {
                Some(n) => strings(old(notes)@).push(n),
                None => strings(old(notes)@),
            }
        }),
{
    let (name, parent_text) = split_path(file);
    let wanted = sanitised(stem(name.as_str()).as_str());
    let parent = sanitised(parent_text.as_str());
    let mut instead = String::from_str(parent.as_str());
    instead.append("-");
    instead.append(wanted.as_str());
    let wanted_chars = chars_of(wanted.as_str());
    if wanted_chars.len() == 0 {
        return None;
    }
    if !taken_already(taken, &wanted_chars) {
        push_string(taken, wanted.clone());
        return Some(wanted);
    }
    let parent_empty = chars_of(parent.as_str()).len() == 0;
    if parent_empty || taken_already(taken, &chars_of(instead.as_str())) {
        let mut note = String::from_str("skipped '");
        note.append(file);
        note.append("': '");
        note.append(wanted.as_str());
        note.append("' is already taken, and so is '");
        note.append(instead.as_str());
        note.append("'");
        push_string(notes, note);
        return None;
    }
    let mut note = String::from_str("discovered '");
    note.append(file);
    note.append("' as '");
    note.append(instead.as_str());
    note.append("', because '");
    note.append(wanted.as_str());
    note.append("' is already taken");
    push_string(notes, note);
    push_string(taken, instead.clone());
    Some(instead)
}

} // verus!
