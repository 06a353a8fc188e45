//! Small helpers shared by the layout code.

use vstd::prelude::*;
use vstd::string::StringSliceAdditionalSpecFns;

verus! {

/// Number of allocation bits that one block of `block_size` bytes holds.
pub open spec fn bits_per_block_spec(block_size: int) -> int {
    block_size * 8
}

/// Number of allocation bits that one block of `block_size` bytes holds.
pub fn bits_per_block(block_size: u64) -> (bits: u64)
    requires
        block_size * 8 <= u64::MAX,
    ensures
        bits == bits_per_block_spec(block_size as int),
{
    block_size * 8
}

/// The fixed-width name field made from `bytes`: the first sixty bytes, padded
/// with zeros on the right.
pub open spec fn name_field(bytes: Seq<u8>) -> Seq<u8> {
    Seq::new(
        60,
        |i: int|
            if i < bytes.len() {
                bytes[i]
            } else {
                0u8
            },
    )
}

/// Packs `bytes` into a name field. Bytes past the sixtieth are dropped; a
/// shorter name is padded with zeros.
pub fn bytes_to_u8_60(bytes: &[u8]) -> (res: [u8; 60])
    ensures
        res@ == name_field(bytes@),
{
    let mut res = [0u8; 60];
    let mut i: usize = 0;
    while i < 60 && i < bytes.len()
        invariant
            i <= 60,
            i <= bytes@.len(),
            forall|j: int| 0 <= j < i ==> res@[j] == bytes@[j],
            forall|j: int| i <= j < 60 ==> res@[j] == 0u8,
        decreases 60 - i,
    {
        res[i] = bytes[i];
        i += 1;
    }
    res
}

/// Packs the UTF-8 bytes of `s` into a name field. Bytes past the sixtieth are
/// dropped; a shorter name is padded with zeros.
pub fn str_to_u8_60(s: &str) -> (res: [u8; 60])
    ensures
        res@ == name_field(s.spec_bytes()),
{
    bytes_to_u8_60(s.as_bytes())
}

} // verus!
