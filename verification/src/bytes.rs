//! Little-endian integers and comparison of byte strings.
use vstd::prelude::*;

verus! {

/// The four bytes of `value`, the least significant one first.
pub open spec fn le_bytes(value: u32) -> Seq<u8> {
    seq![
        (value % 256) as u8,
        (value / 256 % 256) as u8,
        (value / 65536 % 256) as u8,
        (value / 16777216) as u8,
    ]
}

/// The number that four bytes stand for, the least significant one first.
pub open spec fn le_value(bytes: Seq<u8>) -> u32 {
    (bytes[0] + 256 * bytes[1] + 65536 * bytes[2] + 16777216 * bytes[3]) as u32
}

/// The little-endian bytes of `value`.
pub fn to_le_bytes(value: u32) -> (bytes: [u8; 4])
    ensures
        bytes@ == le_bytes(value),
        bytes@[0] + 256 * bytes@[1] + 65536 * bytes@[2] + 16777216 * bytes@[3] == value,
{
    [
        (value % 256) as u8,
        (value / 256 % 256) as u8,
        (value / 65536 % 256) as u8,
        (value / 16777216) as u8,
    ]
}

/// The number whose little-endian bytes are `bytes`.
pub fn from_le_bytes(bytes: [u8; 4]) -> (value: u32)
    ensures
        value == le_value(bytes@),
        bytes@[0] + 256 * bytes@[1] + 65536 * bytes@[2] + 16777216 * bytes@[3] == value,
{
    bytes[0] as u32 + 256 * (bytes[1] as u32) + 65536 * (bytes[2] as u32) + 16777216 * (
    bytes[3] as u32)
}

/// Reading the bytes of a number gives the number back.
pub proof fn lemma_le_round_trip(value: u32)
    ensures
        le_bytes(value).len() == 4,
        le_value(le_bytes(value)) == value,
        ({
            let bytes = le_bytes(value);
            bytes[0] + 256 * bytes[1] + 65536 * bytes[2] + 16777216 * bytes[3] == value
        }),
{
}

/// Every four bytes are those of the number that they stand for.
pub proof fn lemma_le_value_round_trip(bytes: Seq<u8>)
    requires
        bytes.len() == 4,
    ensures
        le_bytes(le_value(bytes)) == bytes,
        le_value(bytes) == bytes[0] + 256 * bytes[1] + 65536 * bytes[2] + 16777216 * bytes[3],
{
    let value = le_value(bytes);
    let upper = bytes[1] + 256 * bytes[2] + 65536 * bytes[3];
    let top = bytes[2] + 256 * bytes[3];
    assert(value == bytes[0] + 256 * upper);
    assert(value % 256 == bytes[0] && value / 256 == upper);
    assert(upper == bytes[1] + 256 * top);
    assert(upper % 256 == bytes[1]);
    assert(value / 65536 == top);
    assert(top % 256 == bytes[2]);
    assert(value / 16777216 == bytes[3]);
    assert(le_bytes(value) =~= bytes);
}

/// Whether two byte strings are equal.
pub fn same_bytes(a: &[u8], b: &[u8]) -> (same: bool)
    ensures
        same == (a@ == b@),
{
    if a.len() != b.len() {
        return false;
    }
    for i in 0..a.len()
        invariant
            a@.len() == b@.len(),
            forall|j: int| 0 <= j < i ==> a@[j] == b@[j],
    {
        if a[i] != b[i] {
            return false;
        }
    }
    assert(a@ =~= b@);
    true
}

} // verus!
