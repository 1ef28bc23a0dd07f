//! Packed validity bits.

use vstd::prelude::*;

verus! {

/// Bit `k` of a byte, counted from the least significant one.
pub open spec fn bit_of(byte: u8, k: int) -> bool {
    (byte >> (k as u8)) & 1u8 == 1u8
}

/// A sequence of bits, eight to a byte, the first one least significant.
#[derive(Debug)]
pub struct Bitmap {
    bytes: Vec<u8>,
}

impl View for Bitmap {
    type V = Seq<bool>;

    closed spec fn view(&self) -> Seq<bool> {
        bits_of(self.bytes@)
    }
}

/// The bits of a sequence of bytes.
pub open spec fn bits_of(bytes: Seq<u8>) -> Seq<bool> {
    Seq::new(bytes.len() * 8, |i: int| bit_of(bytes[i / 8], i % 8))
}

proof fn lemma_set_bit(byte: u8, k: u8)
    requires
        k < 8,
    ensures
        forall|j: int|
            0 <= j < 8 ==> #[trigger] bit_of(byte | (1u8 << k), j) == (j == k || bit_of(byte, j)),
{
    assert forall|j: int| 0 <= j < 8 implies #[trigger] bit_of(byte | (1u8 << k), j) == (j == k
        || bit_of(byte, j)) by {
        let j8: u8 = j as u8;
        assert(((byte | (1u8 << k)) >> j8) & 1u8 == 1u8 <==> (j8 == k || (byte >> j8) & 1u8 == 1u8))
            by (bit_vector)
            requires
                k < 8,
                j8 < 8,
        ;
    }
}

proof fn lemma_zero_byte(k: int)
    requires
        0 <= k < 8,
    ensures
        !bit_of(0u8, k),
{
    let k8: u8 = k as u8;
    assert((0u8 >> k8) & 1u8 == 0u8) by (bit_vector)
        requires
            k8 < 8,
    ;
}

impl Bitmap {
    /// A bitmap over packed bytes.
    pub fn new(bytes: Vec<u8>) -> (r: Bitmap)
        ensures
            r@ == bits_of(bytes@),
    {
        Bitmap { bytes }
    }

    /// Whether the bitmap holds at least `n` bits.
    pub fn covers(&self, n: usize) -> (r: bool)
        ensures
            r == (n <= self@.len()),
    {
        n / 8 < self.bytes.len() || (n / 8 == self.bytes.len() && n % 8 == 0)
    }

    /// Bit `i`.
    pub fn get(&self, i: usize) -> (r: bool)
        requires
            i < self@.len(),
        ensures
            r == self@[i as int],
    {
        (self.bytes[i / 8] >> ((i % 8) as u8)) & 1u8 == 1u8
    }

    /// Writes bit `n` of a bitmap of `n` bits, whose last byte is filled up with zeros.
    fn append(&mut self, n: usize, bit: bool)
        requires
            old(self).bytes@.len() == (n + 7) / 8,
            forall|i: int| n <= i < old(self)@.len() ==> !(#[trigger] old(self)@[i]),
        ensures
            final(self).bytes@.len() == (n + 8) / 8,
            forall|i: int| n < i < final(self)@.len() ==> !(#[trigger] final(self)@[i]),
            final(self)@.take(n + 1) == old(self)@.take(n as int).push(bit),
    {
        let ghost before = self.bytes@;
        if n % 8 == 0 {
            self.bytes.push(0);
            proof {
                assert forall|i: int| n <= i < self@.len() implies !(#[trigger] self@[i]) by {
                    lemma_zero_byte(i % 8);
                }
            }
        }
        let ghost padded = self.bytes@;
        assert(forall|i: int|
            0 <= i < n ==> #[trigger] bits_of(padded)[i] == bits_of(before)[i]);
        assert(self@ == bits_of(padded));
        assert forall|i: int| n <= i < padded.len() * 8 implies !(#[trigger] bits_of(
            padded,
        )[i]) by {
            assert(!self@[i]);
        }
        if bit {
            let k: u8 = (n % 8) as u8;
            let byte: u8 = self.bytes[n / 8];
            self.bytes.set(n / 8, byte | (1u8 << k));
            proof {
                lemma_set_bit(byte, k);
                assert forall|i: int| 0 <= i < self@.len() implies #[trigger] self@[i] == (i == n
                    || bits_of(padded)[i]) by {
                    if i / 8 == n / 8 {
                        assert(bit_of(byte | (1u8 << k), i % 8) == (i % 8 == k || bit_of(
                            byte,
                            i % 8,
                        )));
                    }
                }
            }
        }
        assert(self@.take(n + 1) =~= bits_of(before).take(n as int).push(bit));
    }

    /// A copy of `len` bits from bit `offset` on, filled up with zeros to whole bytes.
    pub fn bit_slice(&self, offset: usize, len: usize) -> (r: Bitmap)
        requires
            offset + len <= self@.len(),
            offset + len <= usize::MAX,
        ensures
            r@.len() == (len + 7) / 8 * 8,
            r@.take(len as int) == self@.subrange(offset as int, offset + len),
            forall|k: int| len <= k < r@.len() ==> !(#[trigger] r@[k]),
    {
        let mut r = Bitmap { bytes: Vec::new() };
        let mut i: usize = 0;
        while i < len
            invariant
                i <= len,
                offset + len <= self@.len(),
                offset + len <= usize::MAX,
                r.bytes@.len() == (i + 7) / 8,
                forall|k: int| i <= k < r@.len() ==> !(#[trigger] r@[k]),
                r@.take(i as int) == self@.subrange(offset as int, offset + i),
            decreases len - i,
        {
            let bit: bool = self.get(offset + i);
            r.append(i, bit);
            assert(self@.subrange(offset as int, offset + i + 1) =~= self@.subrange(
                offset as int,
                offset + i,
            ).push(bit));
            i += 1;
        }
        r
    }
}

/// The bits of `len` elements from element `offset` on, of validity bits that may be absent.
pub fn slice_validity(validity: &Option<Bitmap>, offset: usize, len: usize) -> (r: Option<Bitmap>)
    requires
        offset + len <= usize::MAX,
        validity matches Some(b) ==> offset + len <= b@.len(),
    ensures
        match (*validity, r) {
            (Some(b), Some(own)) => {
                &&& len <= own@.len()
                &&& forall|i: int| 0 <= i < len ==> #[trigger] own@[i] == b@[offset + i]
            },
            (None, None) => true,
            _ => false,
        },
{
    match validity {
        Some(b) => {
            let own = b.bit_slice(offset, len);
            assert forall|i: int| 0 <= i < len implies #[trigger] own@[i] == b@[offset + i] by {
                assert(own@.take(len as int)[i] == own@[i]);
            }
            Some(own)
        },
        None => None,
    }
}

} // verus!
