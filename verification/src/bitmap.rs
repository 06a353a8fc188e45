//! Allocation bitmaps.
//!
//! A bitmap is a run of bytes read as bits, least significant bit first: bit
//! `i` lives in byte `i / 8` at position `i % 8`. A set bit marks a resource
//! that is in use.

use crate::codec::zero_bytes;
use vstd::prelude::*;

verus! {

/// Whether bit `k` of `b` is set, bit 0 being the least significant.
pub open spec fn byte_bit(b: u8, k: u8) -> bool {
    (b >> k) & 1u8 == 1u8
}

/// The bits of `data`, bit `i` living in byte `i / 8` at position `i % 8`.
pub open spec fn bits_of(data: Seq<u8>) -> Seq<bool> {
    Seq::new(8 * data.len(), |i: int| byte_bit(data[i / 8], (i % 8) as u8))
}

/// `data` with bit `i` set.
pub open spec fn set_bit(data: Seq<u8>, i: int) -> Seq<u8> {
    data.update(i / 8, data[i / 8] | (1u8 << ((i % 8) as u8)))
}

/// `data` with bit `i` cleared.
pub open spec fn clear_bit(data: Seq<u8>, i: int) -> Seq<u8> {
    data.update(i / 8, data[i / 8] & !(1u8 << ((i % 8) as u8)))
}

/// How many of `bits` are set.
pub open spec fn count_set(bits: Seq<bool>) -> nat
    decreases bits.len(),
{
    if bits.len() == 0 {
        0
    } else {
        count_set(bits.drop_last()) + if bits.last() {
            1nat
        } else {
            0nat
        }
    }
}

/// The smallest index below `limit` whose bit is clear, if there is one.
#[verifier::opaque]
pub open spec fn first_clear(bits: Seq<bool>, limit: int) -> Option<int> {
    if exists|i: int| 0 <= i < limit && i < bits.len() && !bits[i] {
        Some(choose|i: int| is_first_clear(bits, limit, i))
    } else {
        None
    }
}

/// `i` is the smallest index below `limit` whose bit is clear.
pub open spec fn is_first_clear(bits: Seq<bool>, limit: int, i: int) -> bool {
    &&& 0 <= i < limit
    &&& i < bits.len()
    &&& !bits[i]
    &&& forall|j: int| 0 <= j < i ==> bits[j]
}

/// The smallest clear index is unique, so `first_clear` names it.
pub proof fn lemma_first_clear_is(bits: Seq<bool>, limit: int, i: int)
    requires
        is_first_clear(bits, limit, i),
    ensures
        first_clear(bits, limit) == Some(i),
{
    reveal(first_clear);
    let c = choose|c: int| is_first_clear(bits, limit, c);
    assert(is_first_clear(bits, limit, c));
    if c < i {
        assert(bits[c]);
    }
    if i < c {
        assert(bits[i]);
    }
}

/// Where every bit below `limit` is set, there is no first clear one.
pub proof fn lemma_first_clear_none(bits: Seq<bool>, limit: int)
    requires
        forall|j: int| 0 <= j < limit && j < bits.len() ==> bits[j],
    ensures
        first_clear(bits, limit) is None,
{
    reveal(first_clear);
}

/// What `first_clear` returns is the smallest clear index, and it returns
/// nothing only where every bit below the limit is set.
pub proof fn lemma_first_clear_spec(bits: Seq<bool>, limit: int)
    ensures
        match first_clear(bits, limit) {
            Some(i) => is_first_clear(bits, limit, i),
            None => forall|j: int| 0 <= j < limit && j < bits.len() ==> bits[j],
        },
{
    reveal(first_clear);
    if exists|i: int| 0 <= i < limit && i < bits.len() && !bits[i] {
        let w = choose|i: int| 0 <= i < limit && i < bits.len() && !bits[i];
        lemma_least_clear(bits, limit, w);
    }
}

/// Below any clear bit there is a smallest clear bit.
proof fn lemma_least_clear(bits: Seq<bool>, limit: int, w: int)
    requires
        0 <= w < limit,
        w < bits.len(),
        !bits[w],
    ensures
        exists|i: int| is_first_clear(bits, limit, i),
    decreases w,
{
    if forall|j: int| 0 <= j < w ==> bits[j] {
        assert(is_first_clear(bits, limit, w));
    } else {
        let j = choose|j: int| 0 <= j < w && !bits[j];
        lemma_least_clear(bits, limit, j);
    }
}

/// Setting a clear bit raises the count by one; setting a set bit leaves it.
pub proof fn lemma_count_set_update(bits: Seq<bool>, i: int, v: bool)
    requires
        0 <= i < bits.len(),
    ensures
        count_set(bits.update(i, v)) + (if bits[i] {
            1int
        } else {
            0int
        }) == count_set(bits) + (if v {
            1int
        } else {
            0int
        }),
    decreases bits.len(),
{
    let after = bits.update(i, v);
    if i == bits.len() - 1 {
        assert(after.drop_last() =~= bits.drop_last());
    } else {
        assert(after.drop_last() =~= bits.drop_last().update(i, v));
        lemma_count_set_update(bits.drop_last(), i, v);
    }
}

/// A sequence of clear bits counts zero.
pub proof fn lemma_count_set_zero(bits: Seq<bool>)
    requires
        forall|i: int| 0 <= i < bits.len() ==> !bits[i],
    ensures
        count_set(bits) == 0,
    decreases bits.len(),
{
    if bits.len() > 0 {
        lemma_count_set_zero(bits.drop_last());
    }
}

/// The bits of a run of zero bytes are all clear.
pub proof fn lemma_bits_of_zeros(data: Seq<u8>)
    requires
        forall|i: int| 0 <= i < data.len() ==> data[i] == 0u8,
    ensures
        bits_of(data).len() == 8 * data.len(),
        forall|i: int| 0 <= i < 8 * data.len() ==> !#[trigger] bits_of(data)[i],
{
    assert forall|i: int| 0 <= i < 8 * data.len() implies !#[trigger] bits_of(data)[i] by {
        let k = (i % 8) as u8;
        let b = data[i / 8];
        assert(!byte_bit(b, k)) by (bit_vector)
            requires
                b == 0u8,
                k < 8u8,
        ;
    }
}

/// Rewriting byte `index / 8` so that only bit `index % 8` changes, to `v`,
/// changes bit `index` of the bitmap to `v` and no other.
proof fn lemma_update_byte(data: Seq<u8>, index: int, nb: u8, v: bool)
    requires
        0 <= index < 8 * data.len(),
        forall|j: u8| 0 <= j < 8 ==> byte_bit(nb, j) == (if j == (index % 8) as u8 {
            v
        } else {
            byte_bit(data[index / 8], j)
        }),
    ensures
        bits_of(data.update(index / 8, nb)) == bits_of(data).update(index, v),
{
    let after = data.update(index / 8, nb);
    assert forall|i: int| 0 <= i < 8 * data.len() implies bits_of(after)[i] == bits_of(
        data,
    ).update(index, v)[i] by {
        let j = (i % 8) as u8;
        if i / 8 == index / 8 {
            assert(byte_bit(nb, j) == (if j == (index % 8) as u8 {
                v
            } else {
                byte_bit(data[index / 8], j)
            }));
        }
    }
    assert(bits_of(after) =~= bits_of(data).update(index, v));
}

/// Setting bit `i` sets that bit and changes no other.
pub proof fn lemma_set_bit(data: Seq<u8>, i: int)
    requires
        0 <= i < 8 * data.len(),
    ensures
        set_bit(data, i).len() == data.len(),
        bits_of(set_bit(data, i)) == bits_of(data).update(i, true),
{
    let b = data[i / 8];
    let bit = (i % 8) as u8;
    let nb = b | (1u8 << bit);
    assert forall|j: u8| 0 <= j < 8 implies byte_bit(nb, j) == (if j == bit {
        true
    } else {
        byte_bit(b, j)
    }) by {
        assert(byte_bit(b | (1u8 << bit), j) == (if j == bit {
            true
        } else {
            byte_bit(b, j)
        })) by (bit_vector)
            requires
                j < 8u8,
                bit < 8u8,
        ;
    }
    lemma_update_byte(data, i, nb, true);
}

/// Clearing bit `i` clears that bit and changes no other.
pub proof fn lemma_clear_bit(data: Seq<u8>, i: int)
    requires
        0 <= i < 8 * data.len(),
    ensures
        clear_bit(data, i).len() == data.len(),
        bits_of(clear_bit(data, i)) == bits_of(data).update(i, false),
{
    let b = data[i / 8];
    let bit = (i % 8) as u8;
    let nb = b & !(1u8 << bit);
    assert forall|j: u8| 0 <= j < 8 implies byte_bit(nb, j) == (if j == bit {
        false
    } else {
        byte_bit(b, j)
    }) by {
        assert(byte_bit(b & !(1u8 << bit), j) == (if j == bit {
            false
        } else {
            byte_bit(b, j)
        })) by (bit_vector)
            requires
                j < 8u8,
                bit < 8u8,
        ;
    }
    lemma_update_byte(data, i, nb, false);
}

/// The smallest index whose bit is clear in `data`, or `None` where every bit
/// is set. Full bytes are passed over whole.
pub fn first_free_in(data: &[u8]) -> (free: Option<usize>)
    requires
        8 * data@.len() <= usize::MAX,
    ensures
        match free {
            Some(i) => is_first_clear(bits_of(data@), 8 * data@.len() as int, i as int),
            None => forall|j: int| 0 <= j < 8 * data@.len() ==> bits_of(data@)[j],
        },
{
    let n = data.len();
    let mut byte_index: usize = 0;
    while byte_index < n
        invariant
            n == data@.len(),
            8 * n <= usize::MAX,
            byte_index <= n,
            forall|j: int| 0 <= j < 8 * byte_index ==> bits_of(data@)[j],
        decreases n - byte_index,
    {
        let b = data[byte_index];
        if b != 0xff {
            let mut bit_index: u8 = 0;
            while bit_index < 8
                invariant
                    bit_index <= 8,
                    byte_index < n,
                    n == data@.len(),
                    8 * n <= usize::MAX,
                    b == data@[byte_index as int],
                    b != 0xffu8,
                    forall|j: int| 0 <= j < 8 * byte_index ==> bits_of(data@)[j],
                    forall|k: u8| 0 <= k < bit_index ==> byte_bit(b, k),
                decreases 8 - bit_index,
            {
                if b & (1u8 << bit_index) == 0 {
                    proof {
                        assert((b & (1u8 << bit_index) != 0u8) == byte_bit(b, bit_index))
                            by (bit_vector)
                            requires
                                bit_index < 8u8,
                        ;
                        let i = 8 * byte_index + bit_index;
                        assert forall|j: int| 0 <= j < i implies bits_of(data@)[j] by {
                            if j >= 8 * byte_index {
                                let k = (j % 8) as u8;
                            }
                        }
                    }
                    return Some(byte_index * 8 + bit_index as usize);
                }
                proof {
                    assert((b & (1u8 << bit_index) != 0u8) == byte_bit(b, bit_index))
                        by (bit_vector)
                        requires
                            bit_index < 8u8,
                    ;
                }
                bit_index += 1;
            }
            proof {
                assert(byte_bit(b, 0) && byte_bit(b, 1) && byte_bit(b, 2) && byte_bit(b, 3)
                    && byte_bit(b, 4) && byte_bit(b, 5) && byte_bit(b, 6) && byte_bit(b, 7));
                assert(b == 0xffu8) by (bit_vector)
                    requires
                        byte_bit(b, 0) && byte_bit(b, 1) && byte_bit(b, 2) && byte_bit(b, 3)
                            && byte_bit(b, 4) && byte_bit(b, 5) && byte_bit(b, 6) && byte_bit(
                            b,
                            7,
                        ),
                ;
            }
        }
        proof {
            assert forall|j: int| 0 <= j < 8 * (byte_index + 1) implies bits_of(data@)[j] by {
                if j >= 8 * byte_index {
                    let k = (j % 8) as u8;
                    assert(byte_bit(b, k)) by (bit_vector)
                        requires
                            b == 0xffu8,
                            k < 8u8,
                    ;
                }
            }
        }
        byte_index += 1;
    }
    None
}

/// A bit-addressed allocation map over a byte buffer.
pub trait Bitmap {
    /// The bytes that hold the bits.
    spec fn bytes(&self) -> Seq<u8>;

    /// The byte buffer, for reading and writing in place.
    fn get_data(&mut self) -> (data: &mut [u8])
        ensures
            data@ == old(self).bytes(),
            final(self).bytes() == final(data)@,
    ;

    /// Marks resource `index` as in use. No other bit changes.
    fn set(&mut self, index: usize)
        requires
            index < 8 * old(self).bytes().len(),
        ensures
            final(self).bytes() == set_bit(old(self).bytes(), index as int),
            final(self).bytes().len() == old(self).bytes().len(),
            bits_of(final(self).bytes()) == bits_of(old(self).bytes()).update(index as int, true),
    {
        let byte = index / 8;
        let bit = (index % 8) as u8;
        let data = self.get_data();
        proof {
            lemma_set_bit(data@, index as int);
        }
        let b = data[byte];
        data[byte] = b | (1u8 << bit);
    }

    /// Marks resource `index` as free. No other bit changes.
    fn clear(&mut self, index: usize)
        requires
            index < 8 * old(self).bytes().len(),
        ensures
            final(self).bytes() == clear_bit(old(self).bytes(), index as int),
            final(self).bytes().len() == old(self).bytes().len(),
            bits_of(final(self).bytes()) == bits_of(old(self).bytes()).update(index as int, false),
    {
        let byte = index / 8;
        let bit = (index % 8) as u8;
        let data = self.get_data();
        proof {
            lemma_clear_bit(data@, index as int);
        }
        let b = data[byte];
        data[byte] = b & !(1u8 << bit);
    }

    /// Whether resource `index` is in use. The bitmap is left as it was.
    fn get(&mut self, index: usize) -> (used: bool)
        requires
            index < 8 * old(self).bytes().len(),
        ensures
            final(self).bytes() == old(self).bytes(),
            used == bits_of(old(self).bytes())[index as int],
    {
        let byte = index / 8;
        let bit = (index % 8) as u8;
        let data = self.get_data();
        let b = data[byte];
        proof {
            assert((b & (1u8 << bit) != 0u8) == byte_bit(b, bit)) by (bit_vector)
                requires
                    bit < 8u8,
            ;
        }
        b & (1u8 << bit) != 0
    }

    /// The smallest index whose bit is clear, or `None` where every bit is
    /// set. The bitmap is left as it was.
    fn first_free(&mut self) -> (free: Option<usize>)
        requires
            8 * old(self).bytes().len() <= usize::MAX,
        ensures
            final(self).bytes() == old(self).bytes(),
            match free {
                Some(i) => is_first_clear(
                    bits_of(old(self).bytes()),
                    8 * old(self).bytes().len() as int,
                    i as int,
                ),
                None => forall|j: int|
                    0 <= j < 8 * old(self).bytes().len() ==> bits_of(old(self).bytes())[j],
            },
    {
        let data = self.get_data();
        first_free_in(data)
    }
}

/// The block allocation map: bit `b` is set while data block `b` is in use.
#[derive(Debug, Clone)]
pub struct Bam {
    pub data: Vec<u8>,
}

/// The inode allocation map: bit `i` is set while inode `i` is in use.
#[derive(Debug, Clone)]
pub struct Iam {
    pub data: Vec<u8>,
}

/// A vector of `size` zero bytes.
pub fn zeros(size: usize) -> (data: Vec<u8>)
    ensures
        data@ == zero_bytes(size as nat),
{
    let mut data: Vec<u8> = Vec::new();
    let mut i: usize = 0;
    while i < size
        invariant
            i <= size,
            data@.len() == i,
            forall|j: int| 0 <= j < i ==> data@[j] == 0u8,
        decreases size - i,
    {
        data.push(0u8);
        i += 1;
    }
    data
}

impl Bam {
    /// A map of `size` bytes with every block free.
    pub fn new(size: usize) -> (bam: Self)
        ensures
            bam.data@ == zero_bytes(size as nat),
    {
        Self { data: zeros(size) }
    }
}

impl Bitmap for Bam {
    open spec fn bytes(&self) -> Seq<u8> {
        self.data@
    }

    fn get_data(&mut self) -> (data: &mut [u8]) {
        self.data.as_mut_slice()
    }
}

impl Iam {
    /// A map of `size` bytes with every inode free.
    pub fn new(size: usize) -> (iam: Self)
        ensures
            iam.data@ == zero_bytes(size as nat),
    {
        Self { data: zeros(size) }
    }
}

impl Bitmap for Iam {
    open spec fn bytes(&self) -> Seq<u8> {
        self.data@
    }

    fn get_data(&mut self) -> (data: &mut [u8]) {
        self.data.as_mut_slice()
    }
}

} // verus!
