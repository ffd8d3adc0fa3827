//! What a model file says about itself.
//!
//! A GGUF file begins with its metadata: a magic, a version, two counts, then
//! typed key-value pairs, and only after all of that the tensors. Everything
//! the router wants to know about a model before loading it -- how many
//! layers it has, how wide its attention is, how much context it was trained
//! for, whether it is one shard of several -- sits in those pairs, so this
//! reads them and stops.
//!
//! Three things are part of the contract rather than the implementation.
//!
//! Nothing here allocates on the file's say-so. A length is stepped over, not
//! read, unless the value is one of the handful this keeps; so a file
//! claiming a terabyte-long string costs a step past the end of the file and
//! a fault, never that much memory.
//!
//! A per-layer setting reads as its largest value, and its elements are kept
//! in file order beside it.
//!
//! A key the file does not carry is absent, never zero.
//!
//! Versions 2 and 3 are read; they lay their metadata out identically.
//!
//! The reader works on the first bytes of a file and the file's length. When
//! it needs more of the file than it was given it says so, and the program
//! reads further and asks again; opening and reading the file is the
//! program's business.

pub mod bytes;
pub mod laws;

use vstd::prelude::*;

use crate::text::{chars_of, decimal, decimal_string, ends_with, starts_with};
use bytes::{
    halt_of, max_position, read_scalar, read_text, read_u32, read_u64, scalar_at, skip,
    step_over, take, take_at, text_at, u32_at, u64_at, undefined_kind, undefined_kind_text,
    width, width_of, Halt, Stop,
};

verus! {

/// Why a file could not be read as GGUF metadata.
#[derive(Debug, Clone, PartialEq, Eq)]
pub struct Fault(pub String);

impl Fault {
    /// What went wrong, in words.
    pub fn text(&self) -> (r: &str)
        ensures
            r@ == self.0@,
    {
        self.0.as_str()
    }
}

/// The most pairs a file may declare. Real files carry a few dozen; a count
/// past this is a corrupt header, not a large model.
pub const MAX_PAIRS: u64 = 65536;

/// The longest key kept. Keys are short dotted identifiers.
pub const MAX_KEY_BYTES: u64 = 1024;

/// The longest string value kept, which is only ever the architecture name.
pub const MAX_KEPT_TEXT_BYTES: u64 = 256;

/// The most elements a per-layer array may carry before it is refused as
/// corrupt. Models have hundreds of layers, not millions.
pub const MAX_LAYER_ARRAY: u64 = 1048576;

/// The type tags, as the format numbers them.
pub const STRING: u32 = 8;
pub const ARRAY: u32 = 9;

/// The keys read as metadata, and what they said.
#[derive(Debug, Clone, PartialEq, Eq)]
pub struct Metadata {
    architecture: Option<String>,
    numbers: Vec<(String, u64)>,
    layers: Vec<(String, Vec<u64>)>,
}

/// What metadata says, as texts and numbers: later settings of a key
/// replace earlier ones.
pub struct Said {
    pub architecture: Option<Seq<char>>,
    pub numbers: Seq<(Seq<char>, u64)>,
    pub layers: Seq<(Seq<char>, Seq<u64>)>,
}

/// What metadata that says nothing says.
pub open spec fn nothing_said() -> Said {
    Said { architecture: None, numbers: Seq::empty(), layers: Seq::empty() }
}

/// The value the last setting of a key gave it.
pub open spec fn last_number(ns: Seq<(Seq<char>, u64)>, key: Seq<char>) -> Option<u64>
    decreases ns.len(),
{
    if ns.len() == 0 {
        None
    } else if ns.last().0 == key {
        Some(ns.last().1)
    } else {
        last_number(ns.drop_last(), key)
    }
}

/// The elements the last setting of a per-layer key gave it.
pub open spec fn last_layers(ls: Seq<(Seq<char>, Seq<u64>)>, key: Seq<char>) -> Option<Seq<u64>>
    decreases ls.len(),
{
    if ls.len() == 0 {
        None
    } else if ls.last().0 == key {
        Some(ls.last().1)
    } else {
        last_layers(ls.drop_last(), key)
    }
}

/// A key under the architecture's own prefix.
pub open spec fn prefixed(architecture: Seq<char>, suffix: Seq<char>) -> Seq<char> {
    architecture + "."@ + suffix
}

/// The number a key under the architecture's prefix holds.
pub open spec fn model_number(s: Said, suffix: Seq<char>) -> Option<u64> {
    match s.architecture {
        Some(a) => last_number(s.numbers, prefixed(a, suffix)),
        None => None,
    }
}

/// The per-layer elements a key under the architecture's prefix holds.
pub open spec fn model_layers(s: Said, suffix: Seq<char>) -> Option<Seq<u64>> {
    match s.architecture {
        Some(a) => last_layers(s.layers, prefixed(a, suffix)),
        None => None,
    }
}

/// Whether a key names a per-layer setting: the key-value heads, the heads,
/// or which layers slide.
pub open spec fn is_per_layer(key: Seq<char>) -> bool {
    ends_with(key, ".attention.head_count_kv"@) || ends_with(key, ".attention.head_count"@)
        || ends_with(key, ".attention.sliding_window_pattern"@)
}

/// The larger of two optional numbers, nothing below anything.
pub open spec fn larger(a: Option<u64>, b: Option<u64>) -> Option<u64> {
    match (a, b) {
        (Some(x), Some(y)) => Some(if x >= y {
            x
        } else {
            y
        }),
        (Some(x), None) => Some(x),
        (None, y) => y,
    }
}

/// Reading `count` more elements of a per-layer array: the largest so far,
/// and the elements kept so far, or where it stopped.
pub open spec fn elements(
    data: Seq<u8>,
    length: nat,
    pos: nat,
    kind: u32,
    count: nat,
    largest: Option<u64>,
    kept: Seq<u64>,
) -> Result<(Option<u64>, Seq<u64>, nat), Halt>
    decreases count,
{
    if count == 0 {
        Ok((largest, kept, pos))
    } else {
        match scalar_at(data, length, pos, kind) {
            Err(h) => Err(h),
            Ok((e, next)) => elements(
                data,
                length,
                next,
                kind,
                (count - 1) as nat,
                larger(largest, e),
                match e {
                    Some(x) => kept.push(x),
                    None => kept,
                },
            ),
        }
    }
}

/// Stepping over `count` strings.
pub open spec fn strings_over(data: Seq<u8>, length: nat, pos: nat, count: nat) -> Result<nat, Halt>
    decreases count,
{
    if count == 0 {
        Ok(pos)
    } else {
        match text_at(data, length, pos, 0) {
            Err(h) => Err(h),
            Ok((_, next)) => strings_over(data, length, next, (count - 1) as nat),
        }
    }
}

/// What a per-layer array says: its largest element as a number, and its
/// elements, each only when there is one.
pub open spec fn with_layers(s: Said, key: Seq<char>, largest: Option<u64>, kept: Seq<u64>) -> Said {
    Said {
        architecture: s.architecture,
        numbers: match largest {
            Some(l) => s.numbers.push((key, l)),
            None => s.numbers,
        },
        layers: if kept.len() > 0 {
            s.layers.push((key, kept))
        } else {
            s.layers
        },
    }
}

/// What an array under a key says, read from a position: a per-layer array
/// of numbers is kept, strings are stepped over one by one, a nested array is
/// a fault, and any other array is stepped over whole.
pub open spec fn array_at(data: Seq<u8>, length: nat, pos: nat, key: Seq<char>, s: Said) -> Result<(Said, nat), Halt> {
    match u32_at(data, length, pos) {
        Err(h) => Err(h),
        Ok((kind, p1)) => match u64_at(data, length, p1) {
            Err(h) => Err(h),
            Ok((count, p2)) => if is_per_layer(key) && kind != STRING && kind != ARRAY {
                if count > MAX_LAYER_ARRAY {
                    Err(
                        Halt::Fault(
                            "'"@ + key + "' claims "@ + decimal(count as nat) + " layers"@,
                        ),
                    )
                } else {
                    match elements(data, length, p2, kind, count as nat, None, Seq::empty()) {
                        Err(h) => Err(h),
                        Ok((largest, kept, next)) => Ok((with_layers(s, key, largest, kept), next)),
                    }
                }
            } else if kind == STRING {
                match strings_over(data, length, p2, count as nat) {
                    Err(h) => Err(h),
                    Ok(next) => Ok((s, next)),
                }
            } else if kind == ARRAY {
                Err(Halt::Fault("'"@ + key + "' nests arrays"@))
            } else {
                match width(kind) {
                    None => Err(Halt::Fault(undefined_kind_text(kind))),
                    Some(w) => if count * w > u64::MAX {
                        Err(Halt::Fault("'"@ + key + "' claims an impossible length"@))
                    } else {
                        match skip(p2, (count * w) as nat) {
                            Err(h) => Err(h),
                            Ok(next) => Ok((s, next)),
                        }
                    },
                }
            },
        },
    }
}

/// What one value under a key says, read from a position: the architecture
/// when the key is `general.architecture`, an array as arrays are read, and
/// any other number when it is non-negative and not the tokenizer's.
pub open spec fn value_at(data: Seq<u8>, length: nat, pos: nat, key: Seq<char>, kind: u32, s: Said) -> Result<(Said, nat), Halt> {
    if kind == STRING {
        match text_at(data, length, pos, MAX_KEPT_TEXT_BYTES as nat) {
            Err(h) => Err(h),
            Ok((kept, next)) => Ok(
                (
                    if key == "general.architecture"@ {
                        Said { architecture: kept, numbers: s.numbers, layers: s.layers }
                    } else {
                        s
                    },
                    next,
                ),
            ),
        }
    } else if kind == ARRAY {
        array_at(data, length, pos, key, s)
    } else {
        match scalar_at(data, length, pos, kind) {
            Err(h) => Err(h),
            Ok((n, next)) => Ok(
                (
                    match n {
                        Some(v) => if !starts_with(key, "tokenizer."@) {
                            Said {
                                architecture: s.architecture,
                                numbers: s.numbers.push((key, v)),
                                layers: s.layers,
                            }
                        } else {
                            s
                        },
                        None => s,
                    },
                    next,
                ),
            ),
        }
    }
}

/// Reading one pair: its key, its type, and its value.
pub open spec fn pair_at(data: Seq<u8>, length: nat, pos: nat, s: Said) -> Result<(Said, nat), Halt> {
    match text_at(data, length, pos, MAX_KEY_BYTES as nat) {
        Err(h) => Err(h),
        Ok((None, _)) => Err(Halt::Fault("a key longer than any the format uses"@)),
        Ok((Some(key), p1)) => match u32_at(data, length, p1) {
            Err(h) => Err(h),
            Ok((kind, p2)) => value_at(data, length, p2, key, kind, s),
        },
    }
}

/// Reading `count` more pairs.
pub open spec fn pairs_at(data: Seq<u8>, length: nat, pos: nat, count: nat, s: Said) -> Result<(Said, nat), Halt>
    decreases count,
{
    if count == 0 {
        Ok((s, pos))
    } else {
        match pair_at(data, length, pos, s) {
            Err(h) => Err(h),
            Ok((s2, p)) => pairs_at(data, length, p, (count - 1) as nat, s2),
        }
    }
}

/// The magic every GGUF file begins with.
pub open spec fn magic() -> Seq<u8> {
    seq![71u8, 71u8, 85u8, 70u8]
}

/// What the pairs said, once it is checked that they end inside the file.
pub open spec fn finish(r: Result<(Said, nat), Halt>, length: nat) -> Result<Said, Halt> {
    match r {
        Err(h) => Err(h),
        Ok((s, end)) => if end > length {
            Err(Halt::Fault("ends before its metadata does"@))
        } else {
            Ok(s)
        },
    }
}

/// What a file's metadata says, from its first bytes and its length, or
/// why it cannot be read, or that more of it is needed.
pub open spec fn metadata_of(data: Seq<u8>, length: nat) -> Result<Said, Halt> {
    match take(data, length, 0, 4) {
        Err(h) => Err(h),
        Ok((m, p0)) => if m != magic() {
            Err(Halt::Fault("does not begin with the GGUF magic"@))
        } else {
            match u32_at(data, length, p0) {
                Err(h) => Err(h),
                Ok((version, p1)) => if !(2 <= version <= 3) {
                    Err(
                        Halt::Fault(
                            "GGUF version "@ + decimal(version as nat)
                                + " is not one this reads"@,
                        ),
                    )
                } else {
                    match u64_at(data, length, p1) {
                        Err(h) => Err(h),
                        Ok((_, p2)) => match u64_at(data, length, p2) {
                            Err(h) => Err(h),
                            Ok((pairs, p3)) => if pairs > MAX_PAIRS {
                                Err(
                                    Halt::Fault(
                                        "claims "@ + decimal(pairs as nat) + " metadata pairs"@,
                                    ),
                                )
                            } else {
                                finish(
                                    pairs_at(data, length, p3, pairs as nat, nothing_said()),
                                    length,
                                )
                            },
                        },
                    }
                },
            }
        },
    }
}

/// What a read of metadata from part of a file gives.
pub enum Parsed {
    /// The metadata the file carries.
    Read(Metadata),
    /// Why the file cannot be read as GGUF metadata.
    Faulted(Fault),
    /// More of the file is needed than was given.
    Short,
}

impl Metadata {
    /// What this metadata says.
    pub closed spec fn said(&self) -> Said {
        Said {
            architecture: match self.architecture {
                Some(a) => Some(a@),
                None => None,
            },
            numbers: self.numbers@.map_values(|p: (String, u64)| (p.0@, p.1)),
            layers: self.layers@.map_values(|p: (String, Vec<u64>)| (p.0@, p.1@)),
        }
    }

    /// Metadata that says nothing.
    fn nothing() -> (m: Self)
        ensures
            m.said() == nothing_said(),
    {
        let m = Metadata { architecture: None, numbers: Vec::new(), layers: Vec::new() };
        assert(m.said().numbers =~= Seq::<(Seq<char>, u64)>::empty());
        assert(m.said().layers =~= Seq::<(Seq<char>, Seq<u64>)>::empty());
        m
    }

    /// The architecture the file names, such as `llama` or `qwen3`.
    pub fn architecture(&self) -> (r: Option<&str>)
        ensures
            match r {
                Some(a) => self.said().architecture == Some(a@),
                None => self.said().architecture is None,
            },
    {
        match &self.architecture {
            Some(a) => Some(a.as_str()),
            None => None,
        }
    }

    /// An integer value by its full key, or the largest element when the key
    /// held a per-layer array.
    pub fn number(&self, key: &str) -> (r: Option<u64>)
        ensures
            r == last_number(self.said().numbers, key@),
    {
        let wanted = chars_of(key);
        let ghost ns = self.said().numbers;
        let mut i = self.numbers.len();
        assert(ns.subrange(0, i as int) =~= ns);
        while i > 0
            invariant
                i <= self.numbers.len(),
                ns == self.said().numbers,
                wanted@ == key@,
                last_number(ns, key@) == last_number(ns.subrange(0, i as int), key@),
            decreases i,
        {
            assert(ns.subrange(0, i as int).drop_last() =~= ns.subrange(0, i - 1));
            assert(ns.subrange(0, i as int).last() == (self.numbers@[i - 1].0@, self.numbers@[i - 1].1));
            if crate::text::same(&chars_of(self.numbers[i - 1].0.as_str()), &wanted) {
                return Some(self.numbers[i - 1].1);
            }
            i -= 1;
        }
        None
    }

    /// The elements a per-layer key held, by its full key.
    fn layers_of(&self, key: &str) -> (r: Option<&Vec<u64>>)
        ensures
            match r {
                Some(v) => last_layers(self.said().layers, key@) == Some(v@),
                None => last_layers(self.said().layers, key@) is None,
            },
    {
        let wanted = chars_of(key);
        let ghost ls = self.said().layers;
        let mut i = self.layers.len();
        assert(ls.subrange(0, i as int) =~= ls);
        while i > 0
            invariant
                i <= self.layers.len(),
                ls == self.said().layers,
                wanted@ == key@,
                last_layers(ls, key@) == last_layers(ls.subrange(0, i as int), key@),
            decreases i,
        {
            assert(ls.subrange(0, i as int).drop_last() =~= ls.subrange(0, i - 1));
            assert(ls.subrange(0, i as int).last() == (self.layers@[i - 1].0@, self.layers@[i - 1].1@));
            if crate::text::same(&chars_of(self.layers[i - 1].0.as_str()), &wanted) {
                return Some(&self.layers[i - 1].1);
            }
            i -= 1;
        }
        None
    }

    /// A key under the architecture's own prefix.
    fn model_key(architecture: &str, suffix: &str) -> (r: String)
        ensures
            r@ == prefixed(architecture@, suffix@),
    {
        let mut k = String::from_str(architecture);
        k.append(".");
        k.append(suffix);
        k
    }

    /// An integer value under the architecture's own prefix, so a caller asks
    /// for `block_count` rather than spelling `qwen3.block_count`.
    pub fn of_model(&self, suffix: &str) -> (r: Option<u64>)
        ensures
            r == model_number(self.said(), suffix@),
    {
        match self.architecture() {
            Some(a) => self.number(Self::model_key(a, suffix).as_str()),
            None => None,
        }
    }

    /// A per-layer array under the architecture's own prefix, in file order.
    pub fn per_layer(&self, suffix: &str) -> (r: Option<&Vec<u64>>)
        ensures
            match r {
                Some(v) => model_layers(self.said(), suffix@) == Some(v@),
                None => model_layers(self.said(), suffix@) is None,
            },
    {
        match self.architecture() {
            Some(a) => self.layers_of(Self::model_key(a, suffix).as_str()),
            None => None,
        }
    }

    /// Records a number under a key.
    fn set_number(&mut self, key: &str, value: u64)
        ensures
            final(self).said() == (Said {
                architecture: old(self).said().architecture,
                numbers: old(self).said().numbers.push((key@, value)),
                layers: old(self).said().layers,
            }),
    {
        let ghost before = self.said();
        self.numbers.push((String::from_str(key), value));
        assert(self.said().numbers =~= before.numbers.push((key@, value)));
        assert(self.said().layers =~= before.layers);
    }

    /// Records a per-layer array under a key.
    fn set_layers(&mut self, key: &str, elements: Vec<u64>)
        ensures
            final(self).said() == (Said {
                architecture: old(self).said().architecture,
                numbers: old(self).said().numbers,
                layers: old(self).said().layers.push((key@, elements@)),
            }),
    {
        let ghost before = self.said();
        let ghost e = elements@;
        self.layers.push((String::from_str(key), elements));
        assert(self.said().layers =~= before.layers.push((key@, e)));
        assert(self.said().numbers =~= before.numbers);
    }

    /// A per-layer array, read: its largest element, and its elements.
    fn array_elements(data: &[u8], length: u64, pos: u64, kind: u32, count: u64) -> (r: Result<(Option<u64>, Vec<u64>, u64), Stop>)
        requires
            data@.len() <= length,
            data@.len() <= max_position(),
            pos <= max_position(),
        ensures
            match elements(data@, length as nat, pos as nat, kind, count as nat, None, Seq::empty()) {
                Ok((largest, kept, next)) => r matches Ok((l, v, p)) && l == largest && v@ == kept
                    && p == next,
                Err(h) => r matches Err(s) && halt_of(s) == h,
            },
            r matches Ok((_, _, p)) ==> p <= max_position(),
    {
        let mut largest: Option<u64> = None;
        let mut kept: Vec<u64> = Vec::new();
        let mut at = pos;
        let mut i: u64 = 0;
        while i < count
            invariant
                i <= count,
                data@.len() <= length,
                data@.len() <= max_position(),
                at <= max_position(),
                elements(data@, length as nat, pos as nat, kind, count as nat, None, Seq::empty())
                    == elements(
                    data@,
                    length as nat,
                    at as nat,
                    kind,
                    (count - i) as nat,
                    largest,
                    kept@,
                ),
            decreases count - i,
        {
            match read_scalar(data, length, at, kind) {
                Err(s) => {
                    return Err(s);
                },
                Ok((e, next)) => {
                    largest = match (largest, e) {
                        (Some(x), Some(y)) => Some(
                            if x >= y {
                                x
                            } else {
                                y
                            },
                        ),
                        (Some(x), None) => Some(x),
                        (None, y) => y,
                    };
                    if let Some(x) = e {
                        kept.push(x);
                    }
                    at = next;
                },
            }
            i += 1;
        }
        Ok((largest, kept, at))
    }

    /// Steps over `count` strings.
    fn step_over_strings(data: &[u8], length: u64, pos: u64, count: u64) -> (r: Result<u64, Stop>)
        requires
            data@.len() <= length,
            data@.len() <= max_position(),
            pos <= max_position(),
        ensures
            match strings_over(data@, length as nat, pos as nat, count as nat) {
                Ok(next) => (r matches Ok(p) && p == next),
                Err(h) => r matches Err(s) && halt_of(s) == h,
            },
            r matches Ok(p) ==> p <= max_position(),
    {
        let mut at = pos;
        let mut i: u64 = 0;
        while i < count
            invariant
                i <= count,
                data@.len() <= length,
                data@.len() <= max_position(),
                at <= max_position(),
                strings_over(data@, length as nat, pos as nat, count as nat) == strings_over(
                    data@,
                    length as nat,
                    at as nat,
                    (count - i) as nat,
                ),
            decreases count - i,
        {
            match read_text(data, length, at, 0) {
                Err(s) => {
                    return Err(s);
                },
                Ok((_, next)) => {
                    at = next;
                },
            }
            i += 1;
        }
        Ok(at)
    }

    /// An array under a key, read.
    fn array(&mut self, data: &[u8], length: u64, pos: u64, key: &str) -> (r: Result<u64, Stop>)
        requires
            data@.len() <= length,
            data@.len() <= max_position(),
            pos <= max_position(),
        ensures
            match array_at(data@, length as nat, pos as nat, key@, old(self).said()) {
                Ok((s, next)) => (r matches Ok(p) && p == next) && final(self).said() == s,
                Err(h) => r matches Err(st) && halt_of(st) == h,
            },
            r matches Ok(p) ==> p <= max_position(),
    {
        let (kind, p1) = match read_u32(data, length, pos) {
            Ok(got) => got,
            Err(s) => {
                return Err(s);
            },
        };
        let (count, p2) = match read_u64(data, length, p1) {
            Ok(got) => got,
            Err(s) => {
                return Err(s);
            },
        };
        let k = chars_of(key);
        let per_layer = crate::text::finishes(&k, &chars_of(".attention.head_count_kv"))
            || crate::text::finishes(&k, &chars_of(".attention.head_count"))
            || crate::text::finishes(&k, &chars_of(".attention.sliding_window_pattern"));
        if per_layer && kind != STRING && kind != ARRAY {
            if count > MAX_LAYER_ARRAY {
                let mut m = String::from_str("'");
                m.append(key);
                m.append("' claims ");
                m.append(decimal_string(count as u128).as_str());
                m.append(" layers");
                return Err(Stop::Fault(m));
            }
            let (largest, kept, next) = match Self::array_elements(data, length, p2, kind, count) {
                Ok(got) => got,
                Err(s) => {
                    return Err(s);
                },
            };
            if let Some(l) = largest {
                self.set_number(key, l);
            }
            if kept.len() > 0 {
                self.set_layers(key, kept);
            }
            return Ok(next);
        }
        if kind == STRING {
            return Self::step_over_strings(data, length, p2, count);
        }
        if kind == ARRAY {
            let mut m = String::from_str("'");
            m.append(key);
            m.append("' nests arrays");
            return Err(Stop::Fault(m));
        }
        let w = match width_of(kind) {
            Some(w) => w,
            None => {
                return Err(undefined_kind(kind));
            },
        };
        match count.checked_mul(w) {
            None => {
                let mut m = String::from_str("'");
                m.append(key);
                m.append("' claims an impossible length");
                Err(Stop::Fault(m))
            },
            Some(bytes) => step_over(p2, bytes),
        }
    }

    /// One value under a key, read.
    fn value(&mut self, data: &[u8], length: u64, pos: u64, key: &str, kind: u32) -> (r: Result<u64, Stop>)
        requires
            data@.len() <= length,
            data@.len() <= max_position(),
            pos <= max_position(),
        ensures
            match value_at(data@, length as nat, pos as nat, key@, kind, old(self).said()) {
                Ok((s, next)) => (r matches Ok(p) && p == next) && final(self).said() == s,
                Err(h) => r matches Err(st) && halt_of(st) == h,
            },
            r matches Ok(p) ==> p <= max_position(),
    {
        if kind == STRING {
            let (kept, next) = match read_text(data, length, pos, MAX_KEPT_TEXT_BYTES) {
                Ok(got) => got,
                Err(s) => {
                    return Err(s);
                },
            };
            if crate::text::same(&chars_of(key), &chars_of("general.architecture")) {
                let ghost before = self.said();
                self.architecture = kept;
                assert(self.said().numbers =~= before.numbers);
                assert(self.said().layers =~= before.layers);
            }
            return Ok(next);
        }
        if kind == ARRAY {
            return self.array(data, length, pos, key);
        }
        let (n, next) = match read_scalar(data, length, pos, kind) {
            Ok(got) => got,
            Err(s) => {
                return Err(s);
            },
        };
        if let Some(v) = n {
            if !crate::text::begins(&chars_of(key), &chars_of("tokenizer.")) {
                self.set_number(key, v);
            }
        }
        Ok(next)
    }

    /// One pair, read.
    fn pair(&mut self, data: &[u8], length: u64, pos: u64) -> (r: Result<u64, Stop>)
        requires
            data@.len() <= length,
            data@.len() <= max_position(),
            pos <= max_position(),
        ensures
            match pair_at(data@, length as nat, pos as nat, old(self).said()) {
                Ok((s, next)) => (r matches Ok(p) && p == next) && final(self).said() == s,
                Err(h) => r matches Err(st) && halt_of(st) == h,
            },
            r matches Ok(p) ==> p <= max_position(),
    {
        let (key, p1) = match read_text(data, length, pos, MAX_KEY_BYTES) {
            Ok((Some(k), p)) => (k, p),
            Ok((None, _)) => {
                return Err(Stop::Fault(String::from_str("a key longer than any the format uses")));
            },
            Err(s) => {
                return Err(s);
            },
        };
        let (kind, p2) = match read_u32(data, length, p1) {
            Ok(got) => got,
            Err(s) => {
                return Err(s);
            },
        };
        self.value(data, length, p2, key.as_str(), kind)
    }

    /// Reads the metadata at the head of a model file, from its first bytes
    /// and its whole length: the metadata, the fault, or that more of the
    /// file is needed.
    pub fn parse(data: &[u8], length: u64) -> (r: Parsed)
        requires
            data@.len() <= length,
            data@.len() <= max_position(),
        ensures
            match metadata_of(data@, length as nat) {
                Ok(s) => r matches Parsed::Read(m) && m.said() == s,
                Err(Halt::Fault(why)) => r matches Parsed::Faulted(f) && f.0@ == why,
                Err(Halt::Short) => r is Short,
            },
    {
        match Self::fill(data, length) {
            Ok(m) => Parsed::Read(m),
            Err(Stop::Fault(why)) => Parsed::Faulted(Fault(why)),
            Err(Stop::Short) => Parsed::Short,
        }
    }

    fn fill(data: &[u8], length: u64) -> (r: Result<Self, Stop>)
        requires
            data@.len() <= length,
            data@.len() <= max_position(),
        ensures
            match metadata_of(data@, length as nat) {
                Ok(s) => r matches Ok(m) && m.said() == s,
                Err(h) => r matches Err(st) && halt_of(st) == h,
            },
    {
        let (m, p0) = match take_at(data, length, 0, 4) {
            Ok(got) => got,
            Err(s) => {
                return Err(s);
            },
        };
        if !(m.len() == 4 && m[0] == 71 && m[1] == 71 && m[2] == 85 && m[3] == 70) {
            proof {
                if m@ == magic() {
                    assert(m@[0] == 71 && m@[1] == 71 && m@[2] == 85 && m@[3] == 70);
                }
            }
            return Err(Stop::Fault(String::from_str("does not begin with the GGUF magic")));
        }
        assert(m@ =~= magic());
        let (version, p1) = match read_u32(data, length, p0) {
            Ok(got) => got,
            Err(s) => {
                return Err(s);
            },
        };
        if !(2 <= version && version <= 3) {
            let mut why = String::from_str("GGUF version ");
            why.append(decimal_string(version as u128).as_str());
            why.append(" is not one this reads");
            return Err(Stop::Fault(why));
        }
        let (_, p2) = match read_u64(data, length, p1) {
            Ok(got) => got,
            Err(s) => {
                return Err(s);
            },
        };
        let (pairs, p3) = match read_u64(data, length, p2) {
            Ok(got) => got,
            Err(s) => {
                return Err(s);
            },
        };
        if pairs > MAX_PAIRS {
            let mut why = String::from_str("claims ");
            why.append(decimal_string(pairs as u128).as_str());
            why.append(" metadata pairs");
            return Err(Stop::Fault(why));
        }
        let mut meta = Self::nothing();
        let mut at = p3;
        let mut i: u64 = 0;
        assert(metadata_of(data@, length as nat) == finish(
            pairs_at(data@, length as nat, p3 as nat, pairs as nat, nothing_said()),
            length as nat,
        ));
        while i < pairs
            invariant
                i <= pairs,
                metadata_of(data@, length as nat) == finish(
                    pairs_at(data@, length as nat, p3 as nat, pairs as nat, nothing_said()),
                    length as nat,
                ),
                data@.len() <= length,
                data@.len() <= max_position(),
                at <= max_position(),
                pairs_at(data@, length as nat, p3 as nat, pairs as nat, nothing_said())
                    == pairs_at(data@, length as nat, at as nat, (pairs - i) as nat, meta.said()),
            decreases pairs - i,
        {
            let ghost before = meta.said();
            let ghost was = at;
            match meta.pair(data, length, at) {
                Ok(next) => {
                    assert(pairs_at(data@, length as nat, was as nat, (pairs - i) as nat, before)
                        == pairs_at(
                        data@,
                        length as nat,
                        next as nat,
                        (pairs - i - 1) as nat,
                        meta.said(),
                    ));
                    at = next;
                },
                Err(s) => {
                    return Err(s);
                },
            }
            i += 1;
        }
        if at > length {
            return Err(Stop::Fault(String::from_str("ends before its metadata does")));
        }
        Ok(meta)
    }

    /// How many shards the model is split across, when this file is one.
    pub fn split_count(&self) -> (r: Option<u64>)
        ensures
            r == last_number(self.said().numbers, "split.count"@),
    {
        self.number("split.count")
    }
}

} // verus!
