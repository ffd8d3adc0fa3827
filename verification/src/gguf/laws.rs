//! What reading metadata keeps of the values it meets.

use vstd::prelude::*;

use super::bytes::{law_unsigned_read_as_numbers, le, Halt};
use super::{last_number, value_at, Said};
use crate::text::starts_with;

verus! {

/// An unsigned integer under a key that is not the tokenizer's is kept as
/// the number its bytes spell, least significant first, and is then what
/// that key says: a `split.count` written as a `uint16` counts its shards
/// as surely as one written as a `uint32`.
pub proof fn law_unsigned_pair_kept(data: Seq<u8>, length: nat, pos: nat, key: Seq<char>, kind: u32, s: Said)
    requires
        kind == 0 || kind == 2 || kind == 4 || kind == 10,
        !starts_with(key, "tokenizer."@),
        pos + 8 <= data.len(),
    ensures
        ({
            let n: nat = if kind == 0 {
                1
            } else if kind == 2 {
                2
            } else if kind == 4 {
                4
            } else {
                8
            };
            let v = le(data.subrange(pos as int, (pos + n) as int)) as u64;
            &&& value_at(data, length, pos, key, kind, s) == Ok::<(Said, nat), Halt>(
                (Said { architecture: s.architecture, numbers: s.numbers.push((key, v)), layers: s.layers }, pos + n),
            )
            &&& last_number(value_at(data, length, pos, key, kind, s)->Ok_0.0.numbers, key) == Some(v)
        }),
{
    law_unsigned_read_as_numbers(data, length, pos, kind);
}

} // verus!
