//! The format's primitives: little-endian integers, strings, and stepping
//! over what is not kept, each read at a position of a file of which some
//! first bytes are in hand.
//!
//! A read wholly inside the bytes in hand succeeds. A read past the end of
//! the file fails the way reading a file past its end does. Anything else
//! needs more of the file than is in hand, and says so, so the caller can
//! read further and ask again; the answer never depends on how much was in
//! hand, only on the file.

use vstd::prelude::*;

use crate::text::{decimal, decimal_string};
use crate::text_bytes::byte_slice;

verus! {

/// Why a read stopped short of a value.
pub enum Halt {
    /// The file cannot be read as GGUF metadata, and this says why.
    Fault(Seq<char>),
    /// More of the file is needed than is in hand.
    Short,
}

/// Why a read stopped short of a value.
#[derive(Debug)]
pub enum Stop {
    Fault(String),
    Short,
}

/// What a stop says.
pub open spec fn halt_of(s: Stop) -> Halt {
    match s {
        Stop::Fault(m) => Halt::Fault(m@),
        Stop::Short => Halt::Short,
    }
}

/// What a read that ran past the end of the file says.
pub open spec fn eof_text() -> Seq<char> {
    "ends inside its metadata: failed to fill whole buffer"@
}

/// What a length no file position can step over says.
pub open spec fn impossible_text() -> Seq<char> {
    "claims an impossible length"@
}

/// The furthest position a step may reach.
pub open spec fn max_position() -> nat {
    0x7fff_ffff_ffff_ffffnat
}

/// `n` bytes at `pos` of a file `length` bytes long of which `data` is the
/// start, and where reading them leaves off.
pub open spec fn take(data: Seq<u8>, length: nat, pos: nat, n: nat) -> Result<(Seq<u8>, nat), Halt> {
    if pos + n <= data.len() {
        Ok((data.subrange(pos as int, (pos + n) as int), pos + n))
    } else if pos + n > length {
        Err(Halt::Fault(eof_text()))
    } else {
        Err(Halt::Short)
    }
}

/// The number a run of bytes spells, least significant first.
pub open spec fn le(bytes: Seq<u8>) -> nat
    decreases bytes.len(),
{
    if bytes.len() == 0 {
        0
    } else {
        bytes[0] as nat + 256 * le(bytes.drop_first())
    }
}

/// One more than the largest number `n` bytes spell.
pub open spec fn byte_range(n: nat) -> nat
    decreases n,
{
    if n == 0 {
        1
    } else {
        256 * byte_range((n - 1) as nat)
    }
}

/// A run of bytes spells less than the range of its length.
pub proof fn lemma_le_bound(bytes: Seq<u8>)
    ensures
        le(bytes) < byte_range(bytes.len()),
    decreases bytes.len(),
{
    if bytes.len() > 0 {
        lemma_le_bound(bytes.drop_first());
    }
}

/// The range of eight bytes is that of a `u64`.
pub proof fn lemma_range_eight()
    ensures
        byte_range(8) == 0x1_0000_0000_0000_0000nat,
        byte_range(4) == 0x1_0000_0000nat,
        byte_range(2) == 0x1_0000nat,
        byte_range(1) == 0x100nat,
{
    reveal_with_fuel(byte_range, 9);
}

/// A `u32` at a position.
pub open spec fn u32_at(data: Seq<u8>, length: nat, pos: nat) -> Result<(u32, nat), Halt> {
    match take(data, length, pos, 4) {
        Ok((b, next)) => Ok((le(b) as u32, next)),
        Err(h) => Err(h),
    }
}

/// A `u64` at a position.
pub open spec fn u64_at(data: Seq<u8>, length: nat, pos: nat) -> Result<(u64, nat), Halt> {
    match take(data, length, pos, 8) {
        Ok((b, next)) => Ok((le(b) as u64, next)),
        Err(h) => Err(h),
    }
}

/// The bytes one scalar of this kind occupies, if the format defines it.
pub open spec fn width(kind: u32) -> Option<nat> {
    if kind == 0 || kind == 1 || kind == 7 {
        Some(1)
    } else if kind == 2 || kind == 3 {
        Some(2)
    } else if 4 <= kind <= 6 {
        Some(4)
    } else if 10 <= kind <= 12 {
        Some(8)
    } else {
        None
    }
}

/// What an undefined value type says.
pub open spec fn undefined_kind_text(kind: u32) -> Seq<char> {
    "uses value type "@ + decimal(kind as nat) + ", which the format does not define"@
}

/// The integer a scalar's bytes spell, when they spell a non-negative one:
/// unsigned integers as they are, a flag as one or nothing, signed integers
/// when they are not negative, and nothing for a float.
pub open spec fn unsigned(kind: u32, bytes: Seq<u8>) -> Option<u64> {
    if kind == 0 || kind == 2 || kind == 4 || kind == 10 {
        Some(le(bytes) as u64)
    } else if kind == 7 {
        Some(if bytes[0] != 0 {
            1u64
        } else {
            0u64
        })
    } else if kind == 1 {
        if le(bytes) < 0x80 {
            Some(le(bytes) as u64)
        } else {
            None
        }
    } else if kind == 3 {
        if le(bytes) < 0x8000 {
            Some(le(bytes) as u64)
        } else {
            None
        }
    } else if kind == 5 {
        if le(bytes) < 0x8000_0000 {
            Some(le(bytes) as u64)
        } else {
            None
        }
    } else if kind == 11 {
        if le(bytes) < 0x8000_0000_0000_0000 {
            Some(le(bytes) as u64)
        } else {
            None
        }
    } else {
        None
    }
}

/// One scalar of a kind at a position.
pub open spec fn scalar_at(data: Seq<u8>, length: nat, pos: nat, kind: u32) -> Result<(Option<u64>, nat), Halt> {
    match width(kind) {
        None => Err(Halt::Fault(undefined_kind_text(kind))),
        Some(w) => match take(data, length, pos, w) {
            Ok((b, next)) => Ok((unsigned(kind, b), next)),
            Err(h) => Err(h),
        },
    }
}

/// An unsigned integer value (`uint8`, `uint16`, `uint32`, `uint64`) is
/// read as the number its bytes spell, least significant first, and the
/// position steps past them: one byte, two, four or eight. A `uint8` is its
/// byte, a `uint16` its low byte and 256 times its high one.
pub proof fn law_unsigned_read_as_numbers(data: Seq<u8>, length: nat, pos: nat, kind: u32)
    requires
        kind == 0 || kind == 2 || kind == 4 || kind == 10,
    ensures
        ({
            let n: nat = if kind == 0 {
                1
            } else if kind == 2 {
                2
            } else if kind == 4 {
                4
            } else {
                8
            };
            &&& pos + n <= data.len() ==> scalar_at(data, length, pos, kind) == Ok::<(Option<u64>, nat), Halt>(
                (Some(le(data.subrange(pos as int, (pos + n) as int)) as u64), pos + n),
            )
            &&& pos + 1 <= data.len() && kind == 0 ==> (scalar_at(data, length, pos, kind) matches Ok((Some(v), _))
                && v == data[pos as int])
            &&& pos + 2 <= data.len() && kind == 2 ==> (scalar_at(data, length, pos, kind) matches Ok((Some(v), _))
                && v == data[pos as int] + 256 * data[pos + 1int])
        }),
{
    if pos + 2 <= data.len() && kind == 2 {
        let b = data.subrange(pos as int, pos + 2int);
        assert(b.drop_first().drop_first().len() == 0);
        assert(le(b.drop_first().drop_first()) == 0);
        assert(b.drop_first()[0] == b[1]);
        assert(le(b.drop_first()) == b[1] as nat + 256 * le(b.drop_first().drop_first()));
        assert(le(b) == data[pos as int] + 256 * data[pos + 1int]);
    }
    if pos + 1 <= data.len() && kind == 0 {
        let b = data.subrange(pos as int, pos + 1int);
        assert(b.drop_first().len() == 0);
        assert(le(b.drop_first()) == 0);
        assert(b[0] == data[pos as int]);
        assert(le(b) == data[pos as int]);
    }
}

/// The other scalars: a float (`float32`, `float64`) is never kept as a
/// number; a flag (`bool`) is one when its byte is not zero and zero when it
/// is; a signed integer (`int8`, `int16`, `int32`, `int64`) is kept as the
/// number its bytes spell exactly when its sign bit is clear. Each steps past
/// its bytes: one, two, four or eight.
pub proof fn law_other_scalars(data: Seq<u8>, length: nat, pos: nat, kind: u32)
    requires
        kind == 1 || kind == 3 || kind == 5 || kind == 6 || kind == 7 || kind == 11 || kind == 12,
    ensures
        ({
            let n: nat = if kind == 1 || kind == 7 {
                1
            } else if kind == 3 {
                2
            } else if kind == 5 || kind == 6 {
                4
            } else {
                8
            };
            let b = data.subrange(pos as int, (pos + n) as int);
            let sign: nat = if n == 1 {
                0x80
            } else if n == 2 {
                0x8000
            } else if n == 4 {
                0x8000_0000
            } else {
                0x8000_0000_0000_0000
            };
            pos + n <= data.len() ==> scalar_at(data, length, pos, kind) == Ok::<(Option<u64>, nat), Halt>(
                (
                    if kind == 6 || kind == 12 {
                        None
                    } else if kind == 7 {
                        Some(if data[pos as int] != 0 { 1u64 } else { 0u64 })
                    } else if le(b) < sign {
                        Some(le(b) as u64)
                    } else {
                        None
                    },
                    pos + n,
                ),
            )
        }),
{
    let n: nat = if kind == 1 || kind == 7 {
        1
    } else if kind == 3 {
        2
    } else if kind == 5 || kind == 6 {
        4
    } else {
        8
    };
    if pos + n <= data.len() {
        let b = data.subrange(pos as int, (pos + n) as int);
        assert(b[0] == data[pos as int]);
    }
}

/// Where stepping over `bytes` from `pos` lands, or why it cannot.
pub open spec fn skip(pos: nat, bytes: nat) -> Result<nat, Halt> {
    if bytes > max_position() || pos + bytes > max_position() {
        Err(Halt::Fault(impossible_text()))
    } else {
        Ok(pos + bytes)
    }
}

/// The text `String::from_utf8_lossy` makes of a run of bytes.
pub uninterp spec fn lossy_text(bytes: Seq<u8>) -> Seq<char>;

/// `String::from_utf8_lossy`: the text of these bytes, with anything that
/// is not UTF-8 replaced. What that text is, is named rather than stated,
/// but for the one case the documentation spells out that a short clause can
/// hold: valid UTF-8 comes back as the text it spells, so bytes that are all
/// ASCII come back one character each.
#[verifier::external_body]
fn lossy(bytes: &[u8]) -> (r: String)
    ensures
        r@ == lossy_text(bytes@),
        (forall|i: int| 0 <= i < bytes@.len() ==> #[trigger] bytes@[i] < 128) ==> r@
            == bytes@.map_values(|b: u8| b as char),
{
    String::from_utf8_lossy(bytes).into_owned()
}

/// A string at a position, kept when it is no longer than `keep` bytes and
/// stepped over otherwise. A limit of zero keeps nothing.
pub open spec fn text_at(data: Seq<u8>, length: nat, pos: nat, keep: nat) -> Result<(Option<Seq<char>>, nat), Halt> {
    match u64_at(data, length, pos) {
        Err(h) => Err(h),
        Ok((n, at)) => if n > keep {
            match skip(at, n as nat) {
                Ok(next) => Ok((None, next)),
                Err(h) => Err(h),
            }
        } else {
            match take(data, length, at, n as nat) {
                Ok((b, next)) => Ok((Some(lossy_text(b)), next)),
                Err(h) => Err(h),
            }
        },
    }
}

/// `n` bytes at a position.
pub fn take_at(data: &[u8], length: u64, pos: u64, n: u64) -> (r: Result<(Vec<u8>, u64), Stop>)
    requires
        data@.len() <= length,
        data@.len() <= max_position(),
        pos <= max_position(),
        n <= max_position(),
    ensures
        match take(data@, length as nat, pos as nat, n as nat) {
            Ok((b, next)) => r matches Ok((v, p)) && v@ == b && p == next,
            Err(h) => r matches Err(s) && halt_of(s) == h,
        },
        r matches Ok((_, p)) ==> p <= max_position(),
{
    let end: u128 = pos as u128 + n as u128;
    if end <= data.len() as u128 {
        let bytes = byte_slice(data, pos as usize, end as usize);
        Ok((bytes, end as u64))
    } else if end > length as u128 {
        Err(Stop::Fault(String::from_str("ends inside its metadata: failed to fill whole buffer")))
    } else {
        Err(Stop::Short)
    }
}

/// The number a run of at most eight bytes spells.
pub fn le_value(bytes: &Vec<u8>) -> (r: u64)
    requires
        bytes@.len() <= 8,
    ensures
        r == le(bytes@),
{
    let mut v: u64 = 0;
    let mut i = bytes.len();
    proof {
        lemma_range_eight();
        assert(bytes@.subrange(bytes.len() as int, bytes.len() as int) =~= Seq::<u8>::empty());
    }
    while i > 0
        invariant
            i <= bytes.len() <= 8,
            v == le(bytes@.subrange(i as int, bytes.len() as int)),
            v < byte_range((bytes.len() - i) as nat),
            byte_range(8) == 0x1_0000_0000_0000_0000nat,
        decreases i,
    {
        let ghost rest = bytes@.subrange(i - 1, bytes.len() as int);
        assert(rest.drop_first() =~= bytes@.subrange(i as int, bytes.len() as int));
        assert(rest[0] == bytes@[i - 1]);
        proof {
            assert(byte_range((bytes.len() - i + 1) as nat) == 256 * byte_range(
                (bytes.len() - i) as nat,
            ));
            lemma_range_monotone((bytes.len() - i + 1) as nat, 8);
            assert(v * 256 + bytes@[i - 1] < byte_range((bytes.len() - i + 1) as nat))
                by (nonlinear_arith)
                requires
                    v < byte_range((bytes.len() - i) as nat),
                    byte_range((bytes.len() - i + 1) as nat) == 256 * byte_range(
                        (bytes.len() - i) as nat,
                    ),
                    bytes@[i - 1] < 256,
            ;
        }
        v = v * 256 + bytes[i - 1] as u64;
        i -= 1;
    }
    assert(bytes@.subrange(0, bytes.len() as int) =~= bytes@);
    v
}

/// Ranges grow with their length.
pub proof fn lemma_range_monotone(a: nat, b: nat)
    requires
        a <= b,
    ensures
        byte_range(a) <= byte_range(b),
    decreases b,
{
    if a < b {
        lemma_range_monotone(a, (b - 1) as nat);
    }
}

/// A `u32` at a position.
pub fn read_u32(data: &[u8], length: u64, pos: u64) -> (r: Result<(u32, u64), Stop>)
    requires
        data@.len() <= length,
        data@.len() <= max_position(),
        pos <= max_position(),
    ensures
        match u32_at(data@, length as nat, pos as nat) {
            Ok((v, next)) => r matches Ok((x, p)) && x == v && p == next,
            Err(h) => r matches Err(s) && halt_of(s) == h,
        },
        r matches Ok((_, p)) ==> p <= max_position(),
{
    match take_at(data, length, pos, 4) {
        Ok((b, next)) => {
            let v = le_value(&b);
            proof {
                lemma_le_bound(b@);
                lemma_range_eight();
            }
            Ok((v as u32, next))
        },
        Err(s) => Err(s),
    }
}

/// A `u64` at a position.
pub fn read_u64(data: &[u8], length: u64, pos: u64) -> (r: Result<(u64, u64), Stop>)
    requires
        data@.len() <= length,
        data@.len() <= max_position(),
        pos <= max_position(),
    ensures
        match u64_at(data@, length as nat, pos as nat) {
            Ok((v, next)) => r matches Ok((x, p)) && x == v && p == next,
            Err(h) => r matches Err(s) && halt_of(s) == h,
        },
        r matches Ok((_, p)) ==> p <= max_position(),
{
    match take_at(data, length, pos, 8) {
        Ok((b, next)) => Ok((le_value(&b), next)),
        Err(s) => Err(s),
    }
}

/// The bytes one scalar of this kind occupies, if the format defines it.
pub fn width_of(kind: u32) -> (r: Option<u64>)
    ensures
        match width(kind) {
            Some(w) => r == Some(w as u64),
            None => r is None,
        },
{
    if kind == 0 || kind == 1 || kind == 7 {
        Some(1)
    } else if kind == 2 || kind == 3 {
        Some(2)
    } else if 4 <= kind && kind <= 6 {
        Some(4)
    } else if 10 <= kind && kind <= 12 {
        Some(8)
    } else {
        None
    }
}

/// The fault for a value type the format does not define.
pub fn undefined_kind(kind: u32) -> (s: Stop)
    ensures
        halt_of(s) == Halt::Fault(undefined_kind_text(kind)),
{
    let mut m = String::from_str("uses value type ");
    m.append(decimal_string(kind as u128).as_str());
    m.append(", which the format does not define");
    Stop::Fault(m)
}

/// One scalar of a kind at a position.
pub fn read_scalar(data: &[u8], length: u64, pos: u64, kind: u32) -> (r: Result<(Option<u64>, u64), Stop>)
    requires
        data@.len() <= length,
        data@.len() <= max_position(),
        pos <= max_position(),
    ensures
        match scalar_at(data@, length as nat, pos as nat, kind) {
            Ok((v, next)) => r matches Ok((x, p)) && x == v && p == next,
            Err(h) => r matches Err(s) && halt_of(s) == h,
        },
        r matches Ok((_, p)) ==> p <= max_position(),
{
    let w = match width_of(kind) {
        Some(w) => w,
        None => {
            return Err(undefined_kind(kind));
        },
    };
    let (b, next) = match take_at(data, length, pos, w) {
        Ok(got) => got,
        Err(s) => {
            return Err(s);
        },
    };
    let v = le_value(&b);
    let value = if kind == 0 || kind == 2 || kind == 4 || kind == 10 {
        Some(v)
    } else if kind == 7 {
        Some(
            if b[0] != 0 {
                1u64
            } else {
                0u64
            },
        )
    } else if kind == 1 {
        if v < 0x80 {
            Some(v)
        } else {
            None
        }
    } else if kind == 3 {
        if v < 0x8000 {
            Some(v)
        } else {
            None
        }
    } else if kind == 5 {
        if v < 0x8000_0000 {
            Some(v)
        } else {
            None
        }
    } else if kind == 11 {
        if v < 0x8000_0000_0000_0000 {
            Some(v)
        } else {
            None
        }
    } else {
        None
    };
    Ok((value, next))
}

/// Steps over bytes without reading them, so a claimed length costs nothing
/// until something after it is read.
pub fn step_over(pos: u64, bytes: u64) -> (r: Result<u64, Stop>)
    requires
        pos <= max_position(),
    ensures
        match skip(pos as nat, bytes as nat) {
            Ok(next) => (r matches Ok(p) && p == next),
            Err(h) => r matches Err(s) && halt_of(s) == h,
        },
        r matches Ok(p) ==> p <= max_position(),
{
    if bytes > 0x7fff_ffff_ffff_ffff || pos as u128 + bytes as u128 > 0x7fff_ffff_ffff_ffffu128 {
        Err(Stop::Fault(String::from_str("claims an impossible length")))
    } else {
        Ok(pos + bytes)
    }
}

/// A string at a position, kept when it is no longer than `keep` bytes.
pub fn read_text(data: &[u8], length: u64, pos: u64, keep: u64) -> (r: Result<(Option<String>, u64), Stop>)
    requires
        data@.len() <= length,
        data@.len() <= max_position(),
        pos <= max_position(),
        keep <= max_position(),
    ensures
        match text_at(data@, length as nat, pos as nat, keep as nat) {
            Ok((v, next)) => r matches Ok((x, p)) && p == next && match x {
                Some(t) => v == Some(t@),
                None => v is None,
            },
            Err(h) => r matches Err(s) && halt_of(s) == h,
        },
        r matches Ok((_, p)) ==> p <= max_position(),
{
    let (n, at) = match read_u64(data, length, pos) {
        Ok(got) => got,
        Err(s) => {
            return Err(s);
        },
    };
    if n > keep {
        match step_over(at, n) {
            Ok(next) => Ok((None, next)),
            Err(s) => Err(s),
        }
    } else {
        match take_at(data, length, at, n) {
            Ok((b, next)) => Ok((Some(lossy(b.as_slice())), next)),
            Err(s) => Err(s),
        }
    }
}

} // verus!
