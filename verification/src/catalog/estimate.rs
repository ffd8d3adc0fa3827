//! What loading an entry is expected to cost, worked out from its files.
//!
//! An estimate decides what fits, and one written by hand is the figure most
//! likely to be wrong. The figure is the sum of four terms, in bytes, rounded
//! up to whole mebibytes:
//!
//! - **weights**: the size of every file the entry names -- all the shards of
//!   a split model, the draft model, and the projector;
//! - **cache**: for the model and again for the draft, keys and values for
//!   every layer at the configured context:
//!   `layers x context x kv_heads x (key_length + value_length) x bytes`,
//!   where a missing key length is the embedding width over the head count,
//!   a missing value length is the key length, and bytes per element follows
//!   the cache-type flags (`ctk`/`ctv`, or their long spellings): f16 and
//!   bf16 hold 2, f32 holds 4, `q8_0` holds 1.0625, `q4_0` holds 0.5625, and
//!   any other spelling is read as f16;
//! - **fragmentation**: five percent of the weights;
//! - **overhead**: a fixed 1024 MiB for the device context and the compute
//!   buffers.
//!
//! A file whose metadata cannot be read is estimated from its size alone: a
//! quarter again on top, plus the overhead. Every term errs high on purpose.
//!
//! What is on disk reaches this module as a [`Disk`]: the size of each file
//! and what its metadata said, gathered by whoever can read the disk.

pub mod shard;

use vstd::prelude::*;

use super::flags::Flags;
use super::field::path_option;
use super::path::joined;
use super::served::{first_named, first_set, spelled};
use super::discover::Found;
use super::Entry;
use crate::gguf::{last_number, model_layers, model_number, Metadata, Said};
use crate::text::chars_of;
use shard::{file_name, shard_named, shard_of, sibling_name, with_file_name};

verus! {

/// One mebibyte.
pub const MIB: u64 = 1048576;

/// The device context and compute buffers.
pub const OVERHEAD_BYTES: u64 = 1073741824;

/// Bytes per cached element, in sixteenths, so a quantised cache is exact.
pub const F16: u64 = 32;
pub const F32: u64 = 64;
pub const Q8_0: u64 = 17;
pub const Q4_0: u64 = 9;

/// Where a figure is held once it could no longer change the estimate:
/// anything this large is far more mebibytes than a `u32` counts.
pub const CAP: u128 = 1267650600228229401496703205376;

/// A figure, held at the cap.
pub open spec fn capped(x: nat) -> nat {
    if x < CAP {
        x
    } else {
        CAP as nat
    }
}

/// What the figure was worked out from.
#[derive(Debug, Clone, Copy, PartialEq, Eq)]
pub enum Basis {
    /// The metadata the model file carries about itself.
    Metadata,
    /// The size of the files, because the metadata could not be read.
    Size,
}

/// A derived estimate, and what it rests on.
#[derive(Debug, Clone, Copy, PartialEq, Eq)]
pub struct Derived {
    pub mib: u32,
    pub basis: Basis,
}

/// What is known of one regular file: its size, and its metadata when it
/// could be read as a model.
#[derive(Debug, Clone, PartialEq, Eq)]
pub struct Facts {
    pub size: u64,
    pub metadata: Option<Metadata>,
}

/// What a models root holds: the facts of each file, by the path it
/// resolves to, and every file a walk of the root found, in a stable order.
#[derive(Debug, Clone, PartialEq, Eq)]
pub struct Disk {
    pub files: Vec<(String, Facts)>,
    pub walked: Vec<Found>,
}

/// The facts recorded for a path: the first record for it.
pub open spec fn facts_at(files: Seq<(String, Facts)>, path: Seq<char>) -> Option<Facts>
    decreases files.len(),
{
    if files.len() == 0 {
        None
    } else if files[0].0@ == path {
        Some(files[0].1)
    } else {
        facts_at(files.drop_first(), path)
    }
}

/// The size of the regular file at a path, if there is one.
pub open spec fn size_at(disk: Disk, path: Seq<char>) -> Option<u64> {
    match facts_at(disk.files@, path) {
        Some(f) => Some(f.size),
        None => None,
    }
}

/// What the metadata of the file at a path says, if it could be read.
pub open spec fn said_at(disk: Disk, path: Seq<char>) -> Option<Said> {
    match facts_at(disk.files@, path) {
        Some(f) => match f.metadata {
            Some(m) => Some(m.said()),
            None => None,
        },
        None => None,
    }
}

/// A size, or nothing for a file that is not there.
pub open spec fn size_or_zero(size: Option<u64>) -> nat {
    match size {
        Some(s) => s as nat,
        None => 0,
    }
}

impl Disk {
    /// The facts recorded for a path.
    pub fn facts(&self, path: &str) -> (r: Option<&Facts>)
        ensures
            match r {
                Some(f) => facts_at(self.files@, path@) == Some(*f),
                None => facts_at(self.files@, path@) is None,
            },
    {
        let wanted = chars_of(path);
        let mut i: usize = 0;
        assert(self.files@.subrange(0, self.files@.len() as int) =~= self.files@);
        while i < self.files.len()
            invariant
                i <= self.files.len(),
                wanted@ == path@,
                facts_at(self.files@, path@) == facts_at(
                    self.files@.subrange(i as int, self.files@.len() as int),
                    path@,
                ),
            decreases self.files.len() - i,
        {
            let ghost rest = self.files@.subrange(i as int, self.files@.len() as int);
            assert(rest.drop_first() =~= self.files@.subrange(i + 1, self.files@.len() as int));
            assert(rest[0] == self.files@[i as int]);
            if crate::text::same(&chars_of(self.files[i].0.as_str()), &wanted) {
                return Some(&self.files[i].1);
            }
            i += 1;
        }
        None
    }

    /// The size of the regular file at a path, if there is one.
    pub fn size_of(&self, path: &str) -> (r: Option<u64>)
        ensures
            r == size_at(*self, path@),
    {
        match self.facts(path) {
            Some(f) => Some(f.size),
            None => None,
        }
    }

    /// The metadata of the file at a path, if it could be read.
    pub fn metadata_of(&self, path: &str) -> (r: Option<&Metadata>)
        ensures
            match r {
                Some(m) => said_at(*self, path@) == Some(m.said()),
                None => said_at(*self, path@) is None,
            },
    {
        match self.facts(path) {
            Some(f) => match &f.metadata {
                Some(m) => Some(m),
                None => None,
            },
            None => None,
        }
    }
}

/// The bytes per cached element a spelling asks for, in sixteenths.
pub open spec fn sixteenths_of(spelling: Option<Seq<char>>) -> u64 {
    match spelling {
        Some(s) => if s == "f32"@ {
            F32
        } else if s == "q8_0"@ {
            Q8_0
        } else if s == "q4_0"@ {
            Q4_0
        } else {
            F16
        },
        None => F16,
    }
}

/// The bytes per cached element the flags ask for, in sixteenths, under the
/// first of two spellings that is set.
pub fn sixteenths(flags: &Flags, names: [&str; 2]) -> (r: u64)
    ensures
        r == sixteenths_of(first_set(*flags, seq![names[0]@, names[1]@])),
{
    let list = vec![names[0], names[1]];
    assert(spelled(list@) =~= seq![names[0]@, names[1]@]);
    match first_named(flags, &list) {
        Some(v) => {
            let s = chars_of(v.as_str());
            if crate::text::same(&s, &chars_of("f32")) {
                F32
            } else if crate::text::same(&s, &chars_of("q8_0")) {
                Q8_0
            } else if crate::text::same(&s, &chars_of("q4_0")) {
                Q4_0
            } else {
                F16
            }
        },
        None => F16,
    }
}

/// The key heads: the key-value head count, or the head count when the
/// model does not set one apart.
pub open spec fn kv_heads(s: Said) -> Option<u64> {
    match model_number(s, "attention.head_count_kv"@) {
        Some(k) => Some(k),
        None => model_number(s, "attention.head_count"@),
    }
}

/// The length of one key: as stated, or the embedding width over the head
/// count.
pub open spec fn key_length(s: Said) -> Option<u64> {
    match model_number(s, "attention.key_length"@) {
        Some(l) => Some(l),
        None => match (model_number(s, "embedding_length"@), model_number(s, "attention.head_count"@)) {
            (Some(e), Some(h)) => if h == 0 {
                None
            } else {
                Some((e / h) as u64)
            },
            _ => None,
        },
    }
}

/// Holding each addend holds the sum.
proof fn lemma_held_sum(x: nat, y: nat)
    ensures
        held(held(x) + held(y)) == held(x + y),
{
}

/// A held sum of sixteenths, in bytes and held at the cap, is the exact
/// figure held at the cap.
proof fn lemma_held_sixteenths(x: nat)
    ensures
        capped(held(x) / 16) == capped(x / 16),
{
    assert(capped(held(x) / 16) == capped(x / 16)) by (nonlinear_arith)
        requires
            held(x) == if x < 340282366920938463463374607431768211455 { x } else { 340282366920938463463374607431768211455 },
            capped(held(x) / 16) == if held(x) / 16 < 1267650600228229401496703205376 { held(x) / 16 } else { 1267650600228229401496703205376 },
            capped(x / 16) == if x / 16 < 1267650600228229401496703205376 { x / 16 } else { 1267650600228229401496703205376 },
    ;
}

/// What one layer's cache costs, held.
fn layer_held(span: u64, heads: u64, key: u64, value: u64, keys: u64, values: u64) -> (r: u128)
    ensures
        r == held(span as nat * heads as nat * (key as nat * keys as nat + value as nat * values as nat)),
{
    assert(key as nat * keys as nat <= 18446744073709551615nat * 18446744073709551615nat) by (nonlinear_arith)
        requires
            key <= 18446744073709551615nat,
            keys <= 18446744073709551615nat,
    ;
    assert(value as nat * values as nat <= 18446744073709551615nat * 18446744073709551615nat) by (nonlinear_arith)
        requires
            value <= 18446744073709551615nat,
            values <= 18446744073709551615nat,
    ;
    assert(span as nat * heads as nat <= 18446744073709551615nat * 18446744073709551615nat) by (nonlinear_arith)
        requires
            span <= 18446744073709551615nat,
            heads <= 18446744073709551615nat,
    ;
    let inner = sum_held(key as u128 * keys as u128, value as u128 * values as u128);
    let width = product_held(span as u128, heads as u128);
    let r = product_held(width, inner);
    proof {
        let sh = span as nat * heads as nat;
        let kv = key as nat * keys as nat + value as nat * values as nat;
        assert(width as nat == held(sh));
        assert(inner as nat == held(kv));
        lemma_held_product(sh, kv);
    }
    r
}

/// What the first `n` layers cost when some of them slide, in sixteenths
/// held at the largest `u128`, divided into bytes.
fn windowed_cache(
    metadata: &Metadata,
    declared: Option<&Vec<u64>>,
    n: u64,
    context: u32,
    keys: u64,
    values: u64,
    kv: u64,
    key: u64,
    value: u64,
    window: u64,
) -> (r: u128)
    requires
        match declared {
            Some(p) => model_layers(metadata.said(), "attention.sliding_window_pattern"@) == Some(p@) && n == p@.len(),
            None => model_layers(metadata.said(), "attention.sliding_window_pattern"@) is None,
        },
    ensures
        r == held(
            windowed_sum(
                metadata.said(),
                n as nat,
                context as nat,
                keys as nat,
                values as nat,
                kv as nat,
                key as nat,
                value as nat,
                window as nat,
            ),
        ) / 16,
{
    let ghost s = metadata.said();
    let by_layer = metadata.per_layer("attention.head_count_kv");
    let swa_keys = match metadata.of_model("attention.key_length_swa") {
        Some(l) => l,
        None => key,
    };
    let swa_values = match metadata.of_model("attention.value_length_swa") {
        Some(l) => l,
        None => swa_keys,
    };
    let windowed: u64 = if (context as u64) < window {
        context as u64
    } else {
        window
    };
    let mut total: u128 = 0;
    let mut l: u64 = 0;
    while l < n
        invariant
            l <= n,
            s == metadata.said(),
            match declared {
                Some(p) => model_layers(s, "attention.sliding_window_pattern"@) == Some(p@) && n == p@.len(),
                None => model_layers(s, "attention.sliding_window_pattern"@) is None,
            },
            match by_layer {
                Some(v) => model_layers(s, "attention.head_count_kv"@) == Some(v@),
                None => model_layers(s, "attention.head_count_kv"@) is None,
            },
            swa_keys as nat == swa_key(s, key as nat),
            swa_values as nat == swa_value(s, key as nat),
            windowed as nat == (if context < window { context as nat } else { window as nat }),
            total as nat == held(windowed_sum(s, l as nat, context as nat, keys as nat, values as nat, kv as nat, key as nat, value as nat, window as nat)),
        decreases n - l,
    {
        let heads: u64 = match by_layer {
            Some(by) => if l < by.len() as u64 {
                by[l as usize]
            } else {
                kv
            },
            None => kv,
        };
        let slides: bool = match declared {
            Some(p) => {
                assert(l < p@.len());
                assert(p@.len() == p.len());
                let at = l as usize;
                p[at] != 0
            },
            None => l % 6 != 5,
        };
        let term = if !slides {
            layer_held(context as u64, heads, key, value, keys, values)
        } else {
            layer_held(windowed, heads, swa_keys, swa_values, keys, values)
        };
        let ghost before = windowed_sum(s, l as nat, context as nat, keys as nat, values as nat, kv as nat, key as nat, value as nat, window as nat);
        let ghost this = layer_bytes(s, l as nat, context as nat, keys as nat, values as nat, kv as nat, key as nat, value as nat, window as nat);
        assert(heads as nat == heads_at(s, l as nat, kv as nat));
        assert(slides == slides_at(s, l as nat));
        assert(term as nat == held(this));
        proof {
            lemma_held_sum(before, this);
        }
        total = sum_held(total, term);
        l += 1;
    }
    total / 16
}

/// Keys and values for every caching layer at this context, in bytes, or
/// `None` when the metadata does not say enough to work it out.
///
/// Exact whenever the figure in sixteenths of a byte fits a `u128`; a
/// larger one is held there, so the result is then what a `u128` of
/// sixteenths can say.
pub fn cache_bytes(metadata: &Metadata, context: u32, keys: u64, values: u64) -> (r: Option<u128>)
    ensures
        match cache_sixteenths(metadata.said(), context as nat, keys as nat, values as nat) {
            Some(x) => r == Some((held(x) / 16) as u128),
            None => r is None,
        },
        match cache_sixteenths(metadata.said(), context as nat, keys as nat, values as nat) {
            Some(x) => x <= u128::MAX ==> r == Some((x / 16) as u128),
            None => true,
        },
{
    proof {
        reveal(cache_sixteenths);
    }
    let block_count = match metadata.of_model("block_count") {
        Some(l) => l,
        None => return None,
    };
    let layers = match metadata.of_model("full_attention_interval") {
        Some(i) => if i > 1 {
            block_count / i
        } else {
            block_count
        },
        None => block_count,
    };
    let heads = metadata.of_model("attention.head_count");
    let kv = match metadata.of_model("attention.head_count_kv") {
        Some(k) => k,
        None => match heads {
            Some(h) => h,
            None => return None,
        },
    };
    let key = match metadata.of_model("attention.key_length") {
        Some(l) => l,
        None => match (metadata.of_model("embedding_length"), heads) {
            (Some(e), Some(h)) => if h == 0 {
                return None;
            } else {
                e / h
            },
            _ => return None,
        },
    };
    let value = match metadata.of_model("attention.value_length") {
        Some(v) => v,
        None => key,
    };
    let window = metadata.of_model("attention.sliding_window");
    let declared = metadata.per_layer("attention.sliding_window_pattern");
    let assumed = match metadata.architecture() {
        Some(a) => crate::text::same(&chars_of(a), &chars_of("gemma3")),
        None => false,
    };
    let covered: Option<u64> = match declared {
        Some(p) => Some(p.len() as u64),
        None => if assumed {
            Some(block_count)
        } else {
            None
        },
    };
    match (covered, window) {
        (Some(n), Some(w)) => Some(windowed_cache(metadata, declared, n, context, keys, values, kv, key, value, w)),
        _ => Some(dense_cache(layers, context, kv, key, value, keys, values)),
    }
}

/// What the cache costs when every caching layer attends the whole context
/// the same way: layers by context by heads by key and value, in sixteenths
/// of a byte.
pub open spec fn dense_sixteenths(layers: nat, context: nat, kv: nat, k: nat, v: nat, keys: nat, values: nat) -> nat {
    layers * context * (kv * (k * keys + v * values))
}

/// How many of a model's layers keep a key-value cache: every one, unless
/// the model keeps one on a layer in every `full_attention_interval` and a
/// recurrent state of fixed size on the rest.
pub open spec fn caching_layers(s: Said) -> Option<u64> {
    match model_number(s, "block_count"@) {
        Some(layers) => match model_number(s, "full_attention_interval"@) {
            Some(i) => if i > 1 {
                Some((layers / i) as u64)
            } else {
                Some(layers)
            },
            None => Some(layers),
        },
        None => None,
    }
}

/// Whether the model is one whose windowed layers are fixed by its
/// architecture rather than written in the file: Gemma 3, one full layer in
/// every six.
pub open spec fn assumes_pattern(s: Said) -> bool {
    s.architecture == Some("gemma3"@) && model_number(s, "block_count"@) is Some
}

/// How many layers the windowing pattern covers: the declared pattern, or
/// the assumed one, which covers every layer.
pub open spec fn pattern_len(s: Said) -> Option<nat> {
    match model_layers(s, "attention.sliding_window_pattern"@) {
        Some(p) => Some(p.len()),
        None => if assumes_pattern(s) {
            Some(model_number(s, "block_count"@)->0 as nat)
        } else {
            None
        },
    }
}

/// Whether a layer slides: as the declared pattern marks it, or, where the
/// pattern is assumed, every layer but the last of each run of six.
pub open spec fn slides_at(s: Said, layer: nat) -> bool {
    match model_layers(s, "attention.sliding_window_pattern"@) {
        Some(p) => p[layer as int] != 0,
        None => layer % 6 != 5,
    }
}

/// The key-value heads of one layer: its own count when the model lists
/// them by layer, else the model's.
pub open spec fn heads_at(s: Said, layer: nat, kv: nat) -> nat {
    match model_layers(s, "attention.head_count_kv"@) {
        Some(by) => if layer < by.len() {
            by[layer as int] as nat
        } else {
            kv
        },
        None => kv,
    }
}

/// The length of a windowed layer's key: its own, or the model's.
pub open spec fn swa_key(s: Said, k: nat) -> nat {
    match model_number(s, "attention.key_length_swa"@) {
        Some(l) => l as nat,
        None => k,
    }
}

/// The length of a windowed layer's value: its own, or its key's.
pub open spec fn swa_value(s: Said, k: nat) -> nat {
    match model_number(s, "attention.value_length_swa"@) {
        Some(l) => l as nat,
        None => swa_key(s, k),
    }
}

/// What one layer's cache costs, in sixteenths of a byte: a full layer
/// holds the whole context, a sliding one only its window.
pub open spec fn layer_bytes(
    s: Said,
    layer: nat,
    context: nat,
    keys: nat,
    values: nat,
    kv: nat,
    k: nat,
    v: nat,
    window: nat,
) -> nat {
    let heads = heads_at(s, layer, kv);
    if !slides_at(s, layer) {
        context * heads * (k * keys + v * values)
    } else {
        let span = if context < window {
            context
        } else {
            window
        };
        span * heads * (swa_key(s, k) * keys + swa_value(s, k) * values)
    }
}

/// What the first `n` layers cost, layer by layer, in sixteenths of a byte.
pub open spec fn windowed_sum(
    s: Said,
    n: nat,
    context: nat,
    keys: nat,
    values: nat,
    kv: nat,
    k: nat,
    v: nat,
    window: nat,
) -> nat
    decreases n,
{
    if n == 0 {
        0
    } else {
        windowed_sum(s, (n - 1) as nat, context, keys, values, kv, k, v, window) + layer_bytes(
            s,
            (n - 1) as nat,
            context,
            keys,
            values,
            kv,
            k,
            v,
            window,
        )
    }
}

/// Keys and values for every caching layer at this context, in sixteenths
/// of a byte, or `None` when the metadata does not say enough to work it
/// out. Layers that attend differently are summed one at a time; a model
/// whose layers all attend the same way keeps the single product.
#[verifier::opaque]
pub open spec fn cache_sixteenths(s: Said, context: nat, keys: nat, values: nat) -> Option<nat> {
    match (caching_layers(s), kv_heads(s), key_length(s)) {
        (Some(layers), Some(kv), Some(k)) => {
            let v: nat = match model_number(s, "attention.value_length"@) {
                Some(v) => v as nat,
                None => k as nat,
            };
            match (pattern_len(s), model_number(s, "attention.sliding_window"@)) {
                (Some(n), Some(w)) => Some(
                    windowed_sum(s, n, context, keys, values, kv as nat, k as nat, v, w as nat),
                ),
                _ => Some(dense_sixteenths(layers as nat, context, kv as nat, k as nat, v, keys, values)),
            }
        },
        _ => None,
    }
}

/// Keys and values for every caching layer at this context, in whole bytes,
/// or `None` when the metadata does not say enough to work it out.
#[verifier::opaque]
pub open spec fn cache_of(s: Said, context: nat, keys: nat, values: nat) -> Option<nat> {
    match cache_sixteenths(s, context, keys, values) {
        Some(x) => Some(x / 16),
        None => None,
    }
}

/// Where the model's layers all attend the same way (it has no windowing
/// pattern, declared or assumed, or no window), the cache is the closed
/// product: caching layers by context by key-value heads by the key and
/// value lengths weighed by their types, in sixteenths of a byte, and a
/// sixteenth of that in bytes; it is unknown exactly when the layers, the
/// heads or the key length are.
pub proof fn law_dense_cache(s: Said, context: nat, keys: nat, values: nat)
    requires
        pattern_len(s) is None || model_number(s, "attention.sliding_window"@) is None,
    ensures
        cache_sixteenths(s, context, keys, values) == match (caching_layers(s), kv_heads(s), key_length(s)) {
            (Some(l), Some(h), Some(k)) => Some(
                (l * context * (h * (k * keys + match model_number(s, "attention.value_length"@) {
                    Some(v) => v as nat,
                    None => k as nat,
                } * values))) as nat,
            ),
            _ => None::<nat>,
        },
        cache_of(s, context, keys, values) == match cache_sixteenths(s, context, keys, values) {
            Some(x) => Some(x / 16),
            None => None::<nat>,
        },
{
    reveal(cache_sixteenths);
    reveal(cache_of);
}

/// Where a sum of sixteenths is held: the largest figure a `u128` carries.
pub const HELD: u128 = 340282366920938463463374607431768211455;

/// A sum of sixteenths, held at the largest figure a `u128` carries.
pub open spec fn held(x: nat) -> nat {
    if x < HELD {
        x
    } else {
        HELD as nat
    }
}

/// Holding each factor holds the product.
proof fn lemma_held_product(x: nat, y: nat)
    ensures
        held(held(x) * held(y)) == held(x * y),
{
    if x >= HELD && y > 0 {
        assert(held(x) * held(y) >= HELD) by (nonlinear_arith)
            requires
                held(x) == HELD,
                held(y) >= 1,
        ;
        assert(x * y >= HELD) by (nonlinear_arith)
            requires
                x >= HELD,
                y >= 1,
        ;
    } else if y >= HELD && x > 0 {
        assert(held(x) * held(y) >= HELD) by (nonlinear_arith)
            requires
                held(y) == HELD,
                held(x) >= 1,
        ;
        assert(x * y >= HELD) by (nonlinear_arith)
            requires
                y >= HELD,
                x >= 1,
        ;
    } else if x == 0 || y == 0 {
        assert(x * y == 0) by (nonlinear_arith)
            requires
                x == 0 || y == 0,
        ;
        assert(held(x) * held(y) == 0) by (nonlinear_arith)
            requires
                held(x) == 0 || held(y) == 0,
        ;
    }
}

/// A product, held.
fn product_held(a: u128, b: u128) -> (r: u128)
    ensures
        r == held(a as nat * b as nat),
{
    match a.checked_mul(b) {
        Some(p) => if p < HELD {
            p
        } else {
            HELD
        },
        None => HELD,
    }
}

/// A sum, held.
fn sum_held(a: u128, b: u128) -> (r: u128)
    ensures
        r == held(a as nat + b as nat),
{
    match a.checked_add(b) {
        Some(p) => if p < HELD {
            p
        } else {
            HELD
        },
        None => HELD,
    }
}

/// A product of one factor at least one and another at least `m` is at
/// least `m`.
proof fn lemma_product_at_least(a: nat, b: nat, m: nat)
    requires
        a >= 1,
        b >= m,
    ensures
        a * b >= m,
{
    assert(a * b >= b) by (nonlinear_arith)
        requires
            a >= 1,
    ;
}

/// What the cache costs when every caching layer attends the whole
/// context, in sixteenths held at the largest `u128`, divided into bytes.
fn dense_cache(layers: u64, context: u32, kv: u64, key: u64, value: u64, keys: u64, values: u64) -> (r: u128)
    ensures
        r == held(dense_sixteenths(layers as nat, context as nat, kv as nat, key as nat, value as nat, keys as nat, values as nat)) / 16,
{
    assert(layers as nat * context as nat <= 18446744073709551615nat * 4294967295nat) by (nonlinear_arith)
        requires
            layers <= 18446744073709551615nat,
            context <= 4294967295nat,
    ;
    assert(key as nat * keys as nat <= 18446744073709551615nat * 18446744073709551615nat) by (nonlinear_arith)
        requires
            key <= 18446744073709551615nat,
            keys <= 18446744073709551615nat,
    ;
    assert(value as nat * values as nat <= 18446744073709551615nat * 18446744073709551615nat) by (nonlinear_arith)
        requires
            value <= 18446744073709551615nat,
            values <= 18446744073709551615nat,
    ;
    let lc: u128 = layers as u128 * context as u128;
    let inner = sum_held(key as u128 * keys as u128, value as u128 * values as u128);
    let per_token = product_held(kv as u128, inner);
    let total = product_held(lc, per_token);
    proof {
        let isum = key as nat * keys as nat + value as nat * values as nat;
        assert(held(kv as nat) == kv as nat);
        assert(held(lc as nat) == lc as nat);
        lemma_held_product(kv as nat, isum);
        lemma_held_product(lc as nat, kv as nat * isum);
        assert(lc as nat * (kv as nat * isum) == dense_sixteenths(
            layers as nat,
            context as nat,
            kv as nat,
            key as nat,
            value as nat,
            keys as nat,
            values as nat,
        ));
    }
    total / 16
}

/// The sizes of the other shards of a split model, up to shard `n`: each
/// sibling counts once, and a sibling that is not there counts nothing.
pub open spec fn siblings_size(
    disk: Disk,
    model: Seq<char>,
    shard: (Seq<char>, u64, Seq<char>, Seq<char>),
    n: nat,
) -> nat
    decreases n,
{
    if n == 0 {
        0
    } else {
        siblings_size(disk, model, shard, (n - 1) as nat) + if n == shard.1 {
            0
        } else {
            size_or_zero(size_at(disk, with_file_name(model, sibling_name(shard.0, shard.2, shard.3, n))))
        }
    }
}

/// How many shards the metadata says the model is split across, or one.
pub open spec fn shard_count(said: Option<Said>) -> nat {
    match said {
        Some(s) => match last_number(s.numbers, "split.count"@) {
            Some(c) => c as nat,
            None => 1,
        },
        None => 1,
    }
}

/// The size of the model file, plus every other shard when it is split, or
/// `None` when there is no model file.
pub open spec fn weights_at(disk: Disk, model: Seq<char>) -> Option<nat> {
    match size_at(disk, model) {
        None => None,
        Some(size) => Some(
            size as nat + match shard_named(file_name(model)) {
                Some(sh) => siblings_size(disk, model, sh, shard_count(said_at(disk, model))),
                None => 0,
            },
        ),
    }
}

/// The siblings counted up to `n` include every one at or below it.
proof fn lemma_sibling_counted(
    disk: Disk,
    model: Seq<char>,
    shard: (Seq<char>, u64, Seq<char>, Seq<char>),
    n: nat,
    k: nat,
)
    requires
        1 <= k <= n,
        k != shard.1,
    ensures
        siblings_size(disk, model, shard, n) >= size_or_zero(
            size_at(disk, with_file_name(model, sibling_name(shard.0, shard.2, shard.3, k))),
        ),
    decreases n,
{
    if n > k {
        lemma_sibling_counted(disk, model, shard, (n - 1) as nat, k);
    }
}

/// A split model weighs every shard: the model file, and each other shard
/// its name and its `split.count` say there are, each counted at the size of
/// the file beside it that bears that shard's name.
pub proof fn law_every_shard_weighs(disk: Disk, model: Seq<char>, k: nat)
    requires
        size_at(disk, model) is Some,
        shard_named(file_name(model)) matches Some(sh) && k != sh.1,
        said_at(disk, model) matches Some(s) && last_number(s.numbers, "split.count"@) matches Some(c)
            && 1 <= k <= c,
    ensures
        ({
            let sh = shard_named(file_name(model))->0;
            weights_at(disk, model)->0 >= size_at(disk, model)->0 + size_or_zero(
                size_at(disk, with_file_name(model, sibling_name(sh.0, sh.2, sh.3, k))),
            )
        }),
{
    let sh = shard_named(file_name(model))->0;
    lemma_sibling_counted(disk, model, sh, shard_count(said_at(disk, model)), k);
}

/// Why nothing can be derived for a model that is not there.
pub open spec fn missing_model(model: Seq<char>) -> Seq<char> {
    "no model file at '"@ + model + "'"@
}

/// A capped figure with more added is the sum, capped.
proof fn lemma_capped_add(a: nat, b: nat)
    ensures
        capped(capped(a) + b) == capped(a + b),
{
}

/// A figure under the cap plus a size still fits in a `u128`.
fn add_capped(total: u128, more: u64) -> (r: u128)
    requires
        total <= CAP,
    ensures
        r == capped(total as nat + more as nat),
{
    let sum = total + more as u128;
    if sum < CAP {
        sum
    } else {
        CAP
    }
}

/// The file name of a path: what follows its last separator.
pub fn file_name_of(model: &str) -> (r: String)
    ensures
        r@ == file_name(model@),
{
    let path = chars_of(model);
    proof {
        reveal_strlit("/");
        crate::text::lemma_last_below(model@, "/"@, (model@.len() + 1) as nat);
    }
    match crate::text::split_at_last(&path, &chars_of("/")) {
        Some((_, name)) => crate::text::string_of(name.as_slice()),
        None => crate::text::string_of(path.as_slice()),
    }
}

/// The size of the model file, plus every other shard when it is split,
/// held at the cap.
///
/// # Errors
///
/// Returns the reason when there is no model file.
fn weights_of(disk: &Disk, model: &str) -> (r: Result<u128, String>)
    ensures
        match weights_at(*disk, model@) {
            Some(w) => r == Ok::<u128, String>(capped(w) as u128),
            None => r matches Err(e) && e@ == missing_model(model@),
        },
{
    let size = match disk.size_of(model) {
        Some(s) => s,
        None => {
            let mut why = String::from_str("no model file at '");
            why.append(model);
            why.append("'");
            return Err(why);
        },
    };
    let shards: u64 = match disk.metadata_of(model) {
        Some(m) => match m.split_count() {
            Some(c) => c,
            None => 1,
        },
        None => 1,
    };
    assert(shards as nat == shard_count(said_at(*disk, model@)));
    let mut total: u128 = size as u128;
    let name = file_name_of(model);
    if let Some(shard) = shard_of(name.as_str()) {
        let ghost sh = shard.parts();
        let mut k: u64 = 0;
        while k < shards
            invariant
                k <= shards,
                shard.parts() == sh,
                total == capped(size as nat + siblings_size(*disk, model@, sh, k as nat)),
            decreases shards - k,
        {
            let index = k + 1;
            if index != shard.index {
                let more = match disk.size_of(shard.sibling(model, index).as_str()) {
                    Some(s) => s,
                    None => 0,
                };
                proof {
                    lemma_capped_add(size as nat + siblings_size(*disk, model@, sh, k as nat), more as nat);
                }
                total = add_capped(total, more);
            }
            k = index;
        }
    }
    Ok(total)
}


/// The bytes per element the flags ask of one cache: keys or values, for
/// the model or for its draft.
pub open spec fn flag_sixteenths(flags: Flags, short: Seq<char>, long: Seq<char>) -> nat {
    sixteenths_of(first_set(flags, seq![short, long])) as nat
}

/// What the draft's cache costs, or nothing when there is no draft or its
/// metadata does not say.
pub open spec fn draft_cache(
    draft: Option<Seq<char>>,
    context: nat,
    flags: Flags,
    root: Seq<char>,
    disk: Disk,
) -> nat {
    match draft {
        Some(d) => match said_at(disk, joined(root, d)) {
            Some(s) => match cache_of(
                s,
                context,
                flag_sixteenths(flags, "ctkd"@, "cache-type-k-draft"@),
                flag_sixteenths(flags, "ctvd"@, "cache-type-v-draft"@),
            ) {
                Some(c) => c,
                None => 0,
            },
            None => 0,
        },
        None => 0,
    }
}

/// What the draft and the projector weigh, each nothing when not there.
pub open spec fn side_weights(
    draft: Option<Seq<char>>,
    projector: Option<Seq<char>>,
    root: Seq<char>,
    disk: Disk,
) -> nat {
    (match draft {
        Some(d) => size_or_zero(size_at(disk, joined(root, d))),
        None => 0,
    }) + (match projector {
        Some(p) => size_or_zero(size_at(disk, joined(root, p))),
        None => 0,
    })
}

/// What the model's own cache costs, when its metadata says enough.
pub open spec fn model_cache(
    path: Seq<char>,
    context: nat,
    flags: Flags,
    root: Seq<char>,
    disk: Disk,
) -> Option<nat> {
    match said_at(disk, joined(root, path)) {
        Some(s) => cache_of(
            s,
            context,
            flag_sixteenths(flags, "ctk"@, "cache-type-k"@),
            flag_sixteenths(flags, "ctv"@, "cache-type-v"@),
        ),
        None => None,
    }
}

/// The bytes an entry costs from its weights and caches, and what that
/// rests on: the four terms when the model's cache is known, else the
/// weights and a quarter again.
pub open spec fn bytes_of(weights: nat, model: Option<nat>, draft: nat) -> (nat, Basis) {
    match model {
        Some(c) => ((weights + c + draft + weights * 5 / 100 + OVERHEAD_BYTES) as nat, Basis::Metadata),
        None => ((weights + weights / 4 + OVERHEAD_BYTES) as nat, Basis::Size),
    }
}

/// Bytes in whole mebibytes, rounded up, and held at the largest figure a
/// `u32` carries.
pub open spec fn mib_of(bytes: nat) -> u32 {
    let m = (bytes + MIB - 1) / (MIB as int);
    if m > u32::MAX {
        u32::MAX
    } else {
        m as u32
    }
}

/// What a model at a location is expected to cost, with its draft and
/// projector, at a context and under flags, worked out from the files under
/// the root, or why nothing can be.
pub open spec fn derivation_of(
    path: Seq<char>,
    draft: Option<Seq<char>>,
    projector: Option<Seq<char>>,
    context: nat,
    flags: Flags,
    root: Seq<char>,
    disk: Disk,
) -> Result<Derived, Seq<char>> {
    let model = joined(root, path);
    match weights_at(disk, model) {
        None => Err(missing_model(model)),
        Some(w) => {
            let (bytes, basis) = bytes_of(
                w + side_weights(draft, projector, root, disk),
                model_cache(path, context, flags, root, disk),
                draft_cache(draft, context, flags, root, disk),
            );
            Ok(Derived { mib: mib_of(bytes), basis })
        },
    }
}

/// What an entry is expected to cost, worked out from the files under the
/// root, or why nothing can be.
pub open spec fn derivation(e: Entry, root: Seq<char>, disk: Disk) -> Result<Derived, Seq<char>> {
    derivation_of(
        e.path@,
        path_option(e.draft_path),
        path_option(e.projector_path),
        e.context_size as nat,
        e.flags,
        root,
        disk,
    )
}

/// More weight is never fewer bytes: every term of an estimate grows with
/// the weights, and a draft's cache only adds.
proof fn lemma_more_weight(w: nat, s: nat, c: Option<nat>, d0: nat, d1: nat)
    requires
        d1 >= d0,
    ensures
        bytes_of(w + s, c, d1).0 >= bytes_of(w, c, d0).0 + s,
        bytes_of(w + s, c, d1).1 == bytes_of(w, c, d0).1,
{
    assert((w + s) / 4 >= w / 4) by (nonlinear_arith);
    assert((w + s) * 5 / 100 >= w * 5 / 100) by (nonlinear_arith);
}

/// Whole mebibytes never lose what was added in bytes, short of the largest
/// figure a `u32` counts.
proof fn lemma_mib_grows(x: nat, y: nat, s: nat)
    requires
        y >= x + s,
    ensures
        mib_of(y) as int >= if mib_of(x) + s / (MIB as nat) > u32::MAX {
            u32::MAX as int
        } else {
            mib_of(x) + s / (MIB as nat)
        },
{
    let m = MIB as nat;
    let a = (x + m - 1) as nat / m;
    let b = (y + m - 1) as nat / m;
    assert(a + s / m <= b) by (nonlinear_arith)
        requires
            m == 1048576,
            y >= x + s,
            a == (x + m - 1) as nat / m,
            b == (y + m - 1) as nat / m,
            x >= 0,
            s >= 0,
    ;
}

/// What an entry is estimated at, term by term. The weights are the model's
/// shards with the draft's and the projector's files beside them. When the
/// model's metadata says what its cache costs at the entry's context, the
/// estimate is the weights, that cache, the draft's cache, a twentieth of
/// the weights for fragmentation and a gibibyte of overhead, on the
/// metadata; otherwise it is the weights, a quarter again, and the overhead,
/// on the size alone. Either way it is that many bytes in whole mebibytes,
/// rounded up, and there is none exactly when the model file is missing.
pub proof fn law_estimate_terms(e: Entry, root: Seq<char>, disk: Disk)
    ensures
        (derivation(e, root, disk) is Err) == (size_at(disk, joined(root, e.path@)) is None),
        derivation(e, root, disk) matches Ok(d) ==> {
            let w = weights_at(disk, joined(root, e.path@))->0 + (match e.draft_path {
                Some(p) => size_or_zero(size_at(disk, joined(root, p@))),
                None => 0,
            }) + (match e.projector_path {
                Some(p) => size_or_zero(size_at(disk, joined(root, p@))),
                None => 0,
            });
            let said = said_at(disk, joined(root, e.path@));
            let keys = sixteenths_of(first_set(e.flags, seq!["ctk"@, "cache-type-k"@])) as nat;
            let values = sixteenths_of(first_set(e.flags, seq!["ctv"@, "cache-type-v"@])) as nat;
            let cache = match said {
                Some(s) => cache_of(s, e.context_size as nat, keys, values),
                None => None,
            };
            match cache {
                Some(c) => {
                    &&& d.basis == Basis::Metadata
                    &&& d.mib == mib_of(
                        w + c + draft_cache(path_option(e.draft_path), e.context_size as nat, e.flags, root, disk)
                            + w / 20 + 1073741824,
                    )
                },
                None => {
                    &&& d.basis == Basis::Size
                    &&& d.mib == mib_of(w + w / 4 + 1073741824)
                },
            }
        },
{
    let w = weights_at(disk, joined(root, e.path@));
    if let Some(w) = w {
        let t = w + side_weights(path_option(e.draft_path), path_option(e.projector_path), root, disk);
        assert(t * 5 / 100 == t / 20);
    }
}

/// Every file an entry names weighs on what it is estimated to cost: the
/// same entry with a draft model added is estimated at least the draft
/// file's size higher, in whole mebibytes (short of the largest figure a
/// `u32` counts), and the estimate can be made for one exactly when for the
/// other, on the same basis.
pub proof fn law_draft_weighs(e0: Entry, e1: Entry, root: Seq<char>, disk: Disk)
    requires
        e1.path@ == e0.path@,
        e1.context_size == e0.context_size,
        e1.flags == e0.flags,
        path_option(e1.projector_path) == path_option(e0.projector_path),
        e0.draft_path is None,
        e1.draft_path is Some,
    ensures
        (derivation(e0, root, disk) is Ok) == (derivation(e1, root, disk) is Ok),
        derivation(e0, root, disk) matches Ok(a) ==> {
            let s = size_or_zero(size_at(disk, joined(root, e1.draft_path->0@))) / (MIB as nat);
            &&& derivation(e1, root, disk)->Ok_0.basis == a.basis
            &&& derivation(e1, root, disk)->Ok_0.mib as int >= if a.mib + s > u32::MAX {
                u32::MAX as int
            } else {
                a.mib + s
            }
        },
{
    let model = joined(root, e0.path@);
    if let Some(w) = weights_at(disk, model) {
        let d = e1.draft_path->0@;
        let s = size_or_zero(size_at(disk, joined(root, d)));
        let p = path_option(e0.projector_path);
        let w0 = w + side_weights(None, p, root, disk);
        assert(w + side_weights(Some(d), p, root, disk) == w0 + s);
        let c = model_cache(e0.path@, e0.context_size as nat, e0.flags, root, disk);
        assert(model_cache(e1.path@, e1.context_size as nat, e1.flags, root, disk) == c);
        lemma_more_weight(
            w0,
            s,
            c,
            draft_cache(None, e0.context_size as nat, e0.flags, root, disk),
            draft_cache(Some(d), e1.context_size as nat, e1.flags, root, disk),
        );
        lemma_mib_grows(
            bytes_of(w0, c, 0).0,
            bytes_of(w0 + s, c, draft_cache(Some(d), e1.context_size as nat, e1.flags, root, disk)).0,
            s,
        );
    }
}

/// The same holds of a projector: added, it weighs at least its file's size.
pub proof fn law_projector_weighs(e0: Entry, e1: Entry, root: Seq<char>, disk: Disk)
    requires
        e1.path@ == e0.path@,
        e1.context_size == e0.context_size,
        e1.flags == e0.flags,
        path_option(e1.draft_path) == path_option(e0.draft_path),
        e0.projector_path is None,
        e1.projector_path is Some,
    ensures
        (derivation(e0, root, disk) is Ok) == (derivation(e1, root, disk) is Ok),
        derivation(e0, root, disk) matches Ok(a) ==> {
            let s = size_or_zero(size_at(disk, joined(root, e1.projector_path->0@))) / (MIB as nat);
            &&& derivation(e1, root, disk)->Ok_0.basis == a.basis
            &&& derivation(e1, root, disk)->Ok_0.mib as int >= if a.mib + s > u32::MAX {
                u32::MAX as int
            } else {
                a.mib + s
            }
        },
{
    let model = joined(root, e0.path@);
    if let Some(w) = weights_at(disk, model) {
        let q = e1.projector_path->0@;
        let s = size_or_zero(size_at(disk, joined(root, q)));
        let dr = path_option(e0.draft_path);
        let w0 = w + side_weights(dr, None, root, disk);
        assert(w + side_weights(dr, Some(q), root, disk) == w0 + s);
        let c = model_cache(e0.path@, e0.context_size as nat, e0.flags, root, disk);
        let dc = draft_cache(dr, e0.context_size as nat, e0.flags, root, disk);
        assert(model_cache(e1.path@, e1.context_size as nat, e1.flags, root, disk) == c);
        assert(draft_cache(dr, e1.context_size as nat, e1.flags, root, disk) == dc);
        lemma_more_weight(w0, s, c, dc, dc);
        lemma_mib_grows(bytes_of(w0, c, dc).0, bytes_of(w0 + s, c, dc).0, s);
    }
}

/// Two sets of flags that read the same ask the same of every cache.
pub proof fn lemma_same_flags(a: Flags, b: Flags, names: Seq<Seq<char>>)
    requires
        a@ == b@,
    ensures
        first_set(a, names) == first_set(b, names),
    decreases names.len(),
{
    if names.len() > 0 {
        lemma_same_flags(a, b, names.drop_first());
    }
}

/// Any figure at the cap is more mebibytes than a `u32` counts.
proof fn lemma_mib_at_cap(x: nat)
    requires
        x >= CAP,
    ensures
        mib_of(x) == u32::MAX,
{
    assert((x + MIB - 1) / (MIB as int) >= 1208925819614629174706176int) by (nonlinear_arith)
        requires
            x >= 1267650600228229401496703205376int,
            MIB == 1048576,
    ;
}

/// Working from capped terms gives the mebibytes the exact terms give.
proof fn lemma_capped_bytes(w: nat, c: Option<nat>, d: nat)
    ensures
        mib_of(
            bytes_of(
                capped(w),
                match c {
                    Some(x) => Some(capped(x)),
                    None => None,
                },
                capped(d),
            ).0,
        ) == mib_of(bytes_of(w, c, d).0),
{
    let cc = match c {
        Some(x) => Some(capped(x)),
        None => None,
    };
    let exact = bytes_of(w, c, d).0;
    let held = bytes_of(capped(w), cc, capped(d)).0;
    let small = w < CAP && d < CAP && match c {
        Some(x) => x < CAP,
        None => true,
    };
    if small {
        assert(held == exact);
    } else {
        match c {
            Some(x) => {
                assert(held >= CAP);
                assert(exact >= CAP);
            },
            None => {
                if w >= CAP {
                    assert(held >= CAP);
                    assert(exact >= CAP);
                } else {
                    assert(held == exact);
                }
            },
        }
        if held >= CAP {
            lemma_mib_at_cap(held);
            lemma_mib_at_cap(exact);
        }
    }
}

/// The cache a metadata reading costs under an entry's flags, held at the
/// cap, or nothing.
fn cache_or_nothing(metadata: Option<&Metadata>, context: u32, keys: u64, values: u64) -> (r: Option<u128>)
    ensures
        match metadata {
            Some(m) => match cache_of(m.said(), context as nat, keys as nat, values as nat) {
                Some(x) => r == Some(capped(x) as u128),
                None => r is None,
            },
            None => r is None,
        },
{
    match metadata {
        Some(m) => {
            proof {
                reveal(cache_of);
                match cache_sixteenths(m.said(), context as nat, keys as nat, values as nat) {
                    Some(x) => lemma_held_sixteenths(x),
                    None => {},
                }
            }
            match cache_bytes(m, context, keys, values) {
                Some(c) => Some(
                    if c < CAP {
                        c
                    } else {
                        CAP
                    },
                ),
                None => None,
            }
        },
        None => None,
    }
}

/// Derives the estimate for one entry from the files under `root`.
///
/// # Errors
///
/// Returns the reason when the model file itself cannot be sized, which is
/// the one input without which there is nothing to derive from. A draft or a
/// projector that is not there contributes nothing; the start will name it.
pub fn derive(entry: &Entry, root: &str, disk: &Disk) -> (r: Result<Derived, String>)
    ensures
        match derivation(*entry, root@, *disk) {
            Ok(d) => r == Ok::<Derived, String>(d),
            Err(why) => r matches Err(e) && e@ == why,
        },
{
    let model = entry.path.resolve(root);
    let mut weights = match weights_of(disk, model.as_str()) {
        Ok(w) => w,
        Err(why) => return Err(why),
    };
    let ghost w_exact = weights_at(*disk, model@)->0;
    let mut draft_cost: u128 = 0;
    let ghost mut extra: nat = 0;
    if let Some(draft) = &entry.draft_path {
        let draft = draft.resolve(root);
        let size = match disk.size_of(draft.as_str()) {
            Some(s) => s,
            None => 0,
        };
        proof {
            lemma_capped_add(w_exact, size as nat);
            extra = size as nat;
        }
        weights = add_capped(weights, size);
        let keys = sixteenths(&entry.flags, ["ctkd", "cache-type-k-draft"]);
        let values = sixteenths(&entry.flags, ["ctvd", "cache-type-v-draft"]);
        match cache_or_nothing(disk.metadata_of(draft.as_str()), entry.context_size, keys, values) {
            Some(c) => {
                draft_cost = c;
            },
            None => {},
        }
    }
    assert(draft_cost == capped(draft_cache(path_option(entry.draft_path), entry.context_size as nat, entry.flags, root@, *disk)));
    assert(weights == capped(w_exact + extra));
    if let Some(projector) = &entry.projector_path {
        let size = match disk.size_of(projector.resolve(root).as_str()) {
            Some(s) => s,
            None => 0,
        };
        proof {
            lemma_capped_add(w_exact + extra, size as nat);
            extra = extra + size as nat;
        }
        weights = add_capped(weights, size);
    }
    assert(extra == side_weights(path_option(entry.draft_path), path_option(entry.projector_path), root@, *disk));
    let keys = sixteenths(&entry.flags, ["ctk", "cache-type-k"]);
    let values = sixteenths(&entry.flags, ["ctv", "cache-type-v"]);
    let own = cache_or_nothing(disk.metadata_of(model.as_str()), entry.context_size, keys, values);
    let ghost mc = model_cache(entry.path@, entry.context_size as nat, entry.flags, root@, *disk);
    let ghost dc = draft_cache(path_option(entry.draft_path), entry.context_size as nat, entry.flags, root@, *disk);
    proof {
        lemma_capped_bytes(w_exact + extra, mc, dc);
    }
    let (bytes, basis) = match own {
        Some(c) => (weights + c + draft_cost + weights * 5 / 100 + OVERHEAD_BYTES as u128, Basis::Metadata),
        None => (weights + weights / 4 + OVERHEAD_BYTES as u128, Basis::Size),
    };
    let whole = bytes / (MIB as u128) + if bytes % (MIB as u128) == 0 { 0 } else { 1 };
    assert(whole as int == (bytes + MIB - 1) / (MIB as int)) by (nonlinear_arith)
        requires
            whole as int == (bytes as int) / (MIB as int) + if (bytes as int) % (MIB as int) == 0 { 0int } else { 1int },
            MIB == 1048576,
            bytes >= 0,
    ;
    let mib: u32 = if whole > u32::MAX as u128 {
        u32::MAX
    } else {
        whole as u32
    };
    Ok(Derived { mib, basis })
}

} // verus!
