//! What the flags say about the way an entry is served.
//!
//! The file describes a model. It cannot say how the model will be run, and
//! three of the ways it can be run cost the device nothing like what the file
//! implies: a server told to embed keeps no cache, a draft named as a
//! prediction head keeps no cache of its own, and layers pinned to the
//! processor are not on the device at all. Each is read from the flag
//! `llama-server` itself keys on.

use vstd::prelude::*;

use super::flags::Flags;
use crate::text::{
    chars_of, holds, lowercase, same, to_lower, trim, trimmed, contains,
};

verus! {

/// The texts a list of names spells.
pub open spec fn spelled(names: Seq<&str>) -> Seq<Seq<char>> {
    names.map_values(|s: &str| s@)
}

/// The value of the first of these names that is set, if any is.
pub open spec fn first_set(flags: Flags, names: Seq<Seq<char>>) -> Option<Seq<char>>
    decreases names.len(),
{
    if names.len() == 0 {
        None
    } else {
        match flags.value_of(names[0]) {
            Some(v) => Some(v),
            None => first_set(flags, names.drop_first()),
        }
    }
}

/// Whether a flag's value switches its mode on: anything but `false` or
/// `0`, read without surrounding space and in any case.
pub open spec fn switched_on(value: Seq<char>) -> bool {
    let read = lowercase(trim(value));
    read != "false"@ && read != "0"@
}

/// The value of the first of these names that is set.
pub fn first_named<'a>(flags: &'a Flags, names: &Vec<&str>) -> (r: Option<&'a String>)
    ensures
        match r {
            Some(v) => first_set(*flags, spelled(names@)) == Some(v@),
            None => first_set(*flags, spelled(names@)) is None,
        },
{
    let mut i: usize = 0;
    assert(names@.subrange(0, names@.len() as int) =~= names@);
    while i < names.len()
        invariant
            i <= names.len(),
            first_set(*flags, spelled(names@)) == first_set(
                *flags,
                spelled(names@.subrange(i as int, names@.len() as int)),
            ),
        decreases names.len() - i,
    {
        let ghost rest = spelled(names@.subrange(i as int, names@.len() as int));
        assert(rest[0] == names@[i as int]@);
        assert(rest.drop_first() =~= spelled(names@.subrange(i + 1, names@.len() as int)));
        if let Some(v) = flags.get(names[i]) {
            return Some(v);
        }
        i += 1;
    }
    assert(spelled(names@.subrange(i as int, names@.len() as int)) =~= Seq::<Seq<char>>::empty());
    None
}

/// Whether a flag's value switches its mode on.
pub fn is_switched_on(value: &String) -> (b: bool)
    ensures
        b == switched_on(value@),
{
    let read = to_lower(&trimmed(&chars_of(value.as_str())));
    !same(&read, &chars_of("false")) && !same(&read, &chars_of("0"))
}

/// The names under which a server is told to keep no cache.
pub open spec fn cache_free_names() -> Seq<Seq<char>> {
    seq!["embeddings"@, "embedding"@, "reranking"@, "rerank"@]
}

/// The names under which a server is told how many layers to offload.
pub open spec fn layer_names() -> Seq<Seq<char>> {
    seq!["n-gpu-layers"@, "gpu-layers"@, "ngl"@]
}

/// The names under which a server is told how to speculate.
pub open spec fn speculation_names() -> Seq<Seq<char>> {
    seq!["spec-type"@, "speculative-type"@]
}

/// Whether the entry is served in a way that keeps no key-value cache: the
/// first of `embeddings`, `embedding`, `reranking`, `rerank` that is set,
/// switched on.
pub open spec fn no_cache(flags: Flags) -> bool {
    match first_set(flags, cache_free_names()) {
        Some(v) => switched_on(v),
        None => false,
    }
}

/// Whether every layer stays on the processor: the first of the layer
/// counts that is set reads as exactly zero.
pub open spec fn on_processor(flags: Flags) -> bool {
    match first_set(flags, layer_names()) {
        Some(v) => trim(v) == "0"@,
        None => false,
    }
}

/// Whether the draft is a prediction head: the first speculation setting
/// that is set mentions `mtp` in any case.
pub open spec fn predicting(flags: Flags) -> bool {
    match first_set(flags, speculation_names()) {
        Some(v) => contains(lowercase(trim(v)), "mtp"@),
        None => false,
    }
}

/// Whether the entry is served in a way that keeps no key-value cache.
///
/// A server started with `embeddings` answers one forward pass at a time and
/// keeps nothing between them; one started with `reranking` scores a query
/// against a passage and forgets both.
pub fn keeps_no_cache(flags: &Flags) -> (b: bool)
    ensures
        b == no_cache(*flags),
{
    let names = vec!["embeddings", "embedding", "reranking", "rerank"];
    assert(spelled(names@) =~= cache_free_names());
    match first_named(flags, &names) {
        Some(v) => is_switched_on(v),
        None => false,
    }
}

/// Whether the entry keeps every layer on the processor.
///
/// Only an explicit zero counts. A missing flag means the default, which
/// offloads every layer, and a partial offload is charged in full rather than
/// guessed at below the truth.
pub fn runs_on_processor(flags: &Flags) -> (b: bool)
    ensures
        b == on_processor(*flags),
{
    let names = vec!["n-gpu-layers", "gpu-layers", "ngl"];
    assert(spelled(names@) =~= layer_names());
    match first_named(flags, &names) {
        Some(v) => same(&trimmed(&chars_of(v.as_str())), &chars_of("0")),
        None => false,
    }
}

/// Whether the draft is a prediction head rather than a model of its own.
pub fn predicts_tokens(flags: &Flags) -> (b: bool)
    ensures
        b == predicting(*flags),
{
    let names = vec!["spec-type", "speculative-type"];
    assert(spelled(names@) =~= speculation_names());
    match first_named(flags, &names) {
        Some(v) => holds(&to_lower(&trimmed(&chars_of(v.as_str()))), &chars_of("mtp")),
        None => false,
    }
}

} // verus!
